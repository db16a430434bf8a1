use grammar_prep::grammars::{InputGrammar, PrecedenceEntry, ReservedWordContext, Variable, VariableType};
use grammar_prep::intern_symbols::{intern_symbols, InternSymbolsError};
use grammar_prep::prepare_grammar::{prepare_grammar, validate_precedences, InternedGrammar, PrepareGrammarError};
use grammar_prep::rules::{Precedence, Rule, Symbol, SymbolType};

fn name(n: &str) -> PrecedenceEntry {
    PrecedenceEntry::Name(n.to_string())
}

fn named_variable(n: &str, rule: Rule) -> Variable {
    Variable { name: n.to_string(), kind: VariableType::Named, rule }
}

fn sample_variables(second_prec: &str) -> Vec<Variable> {
    vec![
        named_variable(
            "v1",
            Rule::Sequence(vec![
                Rule::prec_left(Precedence::Name("b".to_string()), Rule::string("w")),
                Rule::prec(Precedence::Name("c".to_string()), Rule::string("x")),
            ]),
        ),
        named_variable(
            "v2",
            Rule::repeat(Rule::Choice(vec![
                Rule::prec_left(Precedence::Name(second_prec.to_string()), Rule::string("y")),
                Rule::prec(Precedence::Name("c".to_string()), Rule::string("z")),
            ])),
        ),
    ]
}

fn validation_message(grammar: &InputGrammar) -> String {
    validate_precedences(grammar).unwrap_err().message()
}

#[test]
fn test_validate_precedences_with_undeclared_precedence() {
    let grammar = InputGrammar {
        precedence_orderings: vec![
            vec![
                PrecedenceEntry::Name("a".to_string()),
                PrecedenceEntry::Name("b".to_string()),
            ],
            vec![
                PrecedenceEntry::Name("b".to_string()),
                PrecedenceEntry::Name("c".to_string()),
                PrecedenceEntry::Name("d".to_string()),
            ],
        ],
        variables: vec![
            Variable {
                name: "v1".to_string(),
                kind: VariableType::Named,
                rule: Rule::Sequence(vec![
                    Rule::prec_left(Precedence::Name("b".to_string()), Rule::string("w")),
                    Rule::prec(Precedence::Name("c".to_string()), Rule::string("x")),
                ]),
            },
            Variable {
                name: "v2".to_string(),
                kind: VariableType::Named,
                rule: Rule::repeat(Rule::Choice(vec![
                    Rule::prec_left(Precedence::Name("omg".to_string()), Rule::string("y")),
                    Rule::prec(Precedence::Name("c".to_string()), Rule::string("z")),
                ])),
            },
        ],
        ..Default::default()
    };

    let result = validate_precedences(&grammar);
    assert_eq!(
        result.unwrap_err().message(),
        "Undeclared precedence 'omg' in rule 'v2'",
    );
}

#[test]
fn test_validate_precedences_with_conflicting_order() {
    let grammar = InputGrammar {
        precedence_orderings: vec![
            vec![
                PrecedenceEntry::Name("a".to_string()),
                PrecedenceEntry::Name("b".to_string()),
            ],
            vec![
                PrecedenceEntry::Name("b".to_string()),
                PrecedenceEntry::Name("c".to_string()),
                PrecedenceEntry::Name("a".to_string()),
            ],
        ],
        variables: vec![
            Variable {
                name: "v1".to_string(),
                kind: VariableType::Named,
                rule: Rule::Sequence(vec![
                    Rule::prec_left(Precedence::Name("b".to_string()), Rule::string("w")),
                    Rule::prec(Precedence::Name("c".to_string()), Rule::string("x")),
                ]),
            },
            Variable {
                name: "v2".to_string(),
                kind: VariableType::Named,
                rule: Rule::repeat(Rule::Choice(vec![
                    Rule::prec_left(Precedence::Name("a".to_string()), Rule::string("y")),
                    Rule::prec(Precedence::Name("c".to_string()), Rule::string("z")),
                ])),
            },
        ],
        ..Default::default()
    };

    let result = validate_precedences(&grammar);
    assert_eq!(
        result.unwrap_err().message(),
        "Conflicting orderings for precedences 'a' and 'b'",
    );
}

#[test]
fn declared_and_agreeing_precedences_pass() {
    let grammar = InputGrammar {
        precedence_orderings: vec![vec![name("a"), name("b")], vec![name("b"), name("c"), name("d")]],
        variables: sample_variables("a"),
        ..Default::default()
    };
    assert!(validate_precedences(&grammar).is_ok());
}

#[test]
fn conflict_is_named_canonically_whichever_list_comes_first() {
    let grammar = InputGrammar {
        precedence_orderings: vec![vec![name("b"), name("c"), name("a")], vec![name("a"), name("b")]],
        variables: sample_variables("a"),
        ..Default::default()
    };
    assert_eq!(validation_message(&grammar), "Conflicting orderings for precedences 'a' and 'b'");
}

#[test]
fn conflict_within_one_list() {
    let grammar = InputGrammar {
        precedence_orderings: vec![vec![name("x"), name("y"), name("x")]],
        ..Default::default()
    };
    assert_eq!(validation_message(&grammar), "Conflicting orderings for precedences 'x' and 'y'");
}

#[test]
fn numeric_entries_are_shown_as_numerals() {
    let grammar = InputGrammar {
        precedence_orderings: vec![
            vec![PrecedenceEntry::Number(2), PrecedenceEntry::Number(-3)],
            vec![PrecedenceEntry::Number(-3), PrecedenceEntry::Number(2)],
        ],
        ..Default::default()
    };
    assert_eq!(validation_message(&grammar), "Conflicting orderings for precedences -3 and 2");
}

#[test]
fn names_come_before_numbers_in_conflicts() {
    let grammar = InputGrammar {
        precedence_orderings: vec![
            vec![PrecedenceEntry::Number(10), name("k")],
            vec![name("k"), PrecedenceEntry::Number(10)],
        ],
        ..Default::default()
    };
    assert_eq!(validation_message(&grammar), "Conflicting orderings for precedences 'k' and 10");
}

#[test]
fn repeated_entry_and_repeated_direction_are_not_conflicts() {
    let grammar = InputGrammar {
        precedence_orderings: vec![vec![name("a"), name("a"), name("b")], vec![name("a"), name("b")]],
        ..Default::default()
    };
    assert!(validate_precedences(&grammar).is_ok());
}

#[test]
fn prefix_names_are_ordered_first() {
    let grammar = InputGrammar {
        precedence_orderings: vec![vec![name("ab"), name("a")], vec![name("a"), name("ab")]],
        ..Default::default()
    };
    assert_eq!(validation_message(&grammar), "Conflicting orderings for precedences 'a' and 'ab'");
}

#[test]
fn conflict_is_reported_before_undeclared_name() {
    let grammar = InputGrammar {
        precedence_orderings: vec![vec![name("a"), name("b")], vec![name("b"), name("a")]],
        variables: sample_variables("omg"),
        ..Default::default()
    };
    assert_eq!(validation_message(&grammar), "Conflicting orderings for precedences 'a' and 'b'");
}

#[test]
fn undeclared_name_reported_for_first_variable() {
    let grammar = InputGrammar {
        precedence_orderings: vec![vec![name("a")]],
        variables: sample_variables("zz"),
        ..Default::default()
    };
    assert_eq!(validation_message(&grammar), "Undeclared precedence 'b' in rule 'v1'");
}

fn symbol_grammar() -> InputGrammar {
    InputGrammar {
        variables: vec![
            named_variable(
                "program",
                Rule::repeat(Rule::Choice(vec![
                    Rule::NamedSymbol("statement".to_string()),
                    Rule::NamedSymbol("comment".to_string()),
                ])),
            ),
            named_variable(
                "statement",
                Rule::Sequence(vec![Rule::string("let"), Rule::NamedSymbol("heredoc".to_string())]),
            ),
        ],
        external_tokens: vec![
            Rule::NamedSymbol("heredoc".to_string()),
            Rule::string("%%"),
        ],
        extra_symbols: vec![Rule::NamedSymbol("comment".to_string())],
        supertype_symbols: vec!["statement".to_string()],
        variables_to_inline: vec!["statement".to_string()],
        expected_conflicts: vec![vec!["program".to_string(), "statement".to_string()]],
        word_token: Some("heredoc".to_string()),
        ..Default::default()
    }
}

#[test]
fn undefined_symbol_is_reported() {
    let grammar = symbol_grammar();
    match intern_symbols(&grammar) {
        Err(e) => {
            assert!(matches!(&e, InternSymbolsError::Undefined(n) if n == "comment"));
            assert_eq!(e.message(), "Undefined symbol `comment`");
        }
        Ok(_) => panic!("expected an undefined symbol"),
    }
}

fn defined_symbol_grammar() -> InputGrammar {
    let mut grammar = symbol_grammar();
    grammar.variables.push(named_variable("comment", Rule::Pattern("//.*".to_string(), String::new())));
    grammar
}

#[test]
fn names_resolve_to_variables_then_externals() {
    let grammar = defined_symbol_grammar();
    let interned = intern_symbols(&grammar).ok().unwrap();
    let nt = |index| Symbol { kind: SymbolType::NonTerminal, index };
    let ext = |index| Symbol { kind: SymbolType::External, index };
    assert_eq!(interned.variables.len(), 3);
    assert_eq!(
        interned.variables[0].rule,
        Rule::repeat(Rule::Choice(vec![Rule::Symbol(nt(1)), Rule::Symbol(nt(2))]))
    );
    assert_eq!(
        interned.variables[1].rule,
        Rule::Sequence(vec![Rule::string("let"), Rule::Symbol(ext(0))])
    );
    assert_eq!(interned.variables[2].name, "comment");
    assert_eq!(interned.extra_symbols, vec![Rule::Symbol(nt(2))]);
    assert_eq!(interned.supertype_symbols, vec![nt(1)]);
    assert_eq!(interned.variables_to_inline, vec![nt(1)]);
    assert_eq!(interned.expected_conflicts, vec![vec![nt(0), nt(1)]]);
    assert_eq!(interned.word_token, Some(ext(0)));
    assert_eq!(interned.external_tokens.len(), 2);
    assert_eq!(interned.external_tokens[0].name, "heredoc");
    assert_eq!(interned.external_tokens[0].kind, VariableType::Named);
    assert_eq!(interned.external_tokens[0].rule, Rule::Symbol(ext(0)));
    assert_eq!(interned.external_tokens[1].name, "");
    assert_eq!(interned.external_tokens[1].kind, VariableType::Anonymous);
    assert_eq!(interned.external_tokens[1].rule, Rule::string("%%"));
}

#[test]
fn prepare_grammar_runs_validation_first() {
    let mut grammar = symbol_grammar();
    grammar.variables[0].rule = Rule::prec(Precedence::Name("missing".to_string()), Rule::Blank);
    match prepare_grammar(&grammar) {
        Err(e) => {
            assert!(matches!(e, PrepareGrammarError::ValidatePrecedences(_)));
            assert_eq!(e.message(), "Undeclared precedence 'missing' in rule 'program'");
        }
        Ok(_) => panic!("expected a precedence error"),
    }
}

#[test]
fn prepare_grammar_reports_undefined_symbol() {
    match prepare_grammar(&symbol_grammar()) {
        Err(e) => assert_eq!(e.message(), "Undefined symbol `comment`"),
        Ok(_) => panic!("expected an undefined symbol"),
    }
}

#[test]
fn prepare_grammar_is_deterministic() {
    let first = prepare_grammar(&defined_symbol_grammar()).ok().unwrap();
    let second = prepare_grammar(&defined_symbol_grammar()).ok().unwrap();
    assert_eq!(first.variables, second.variables);
    assert_eq!(first.extra_symbols, second.extra_symbols);
    assert_eq!(first.external_tokens, second.external_tokens);
    assert_eq!(first.expected_conflicts, second.expected_conflicts);
    assert_eq!(first.precedence_orderings, second.precedence_orderings);
    assert_eq!(first.variables_to_inline, second.variables_to_inline);
    assert_eq!(first.supertype_symbols, second.supertype_symbols);
    assert_eq!(first.word_token, second.word_token);
}

#[test]
fn every_interned_symbol_is_in_range() {
    let grammar = defined_symbol_grammar();
    let interned = prepare_grammar(&grammar).ok().unwrap();
    let in_range = |s: &Symbol| match s.kind {
        SymbolType::NonTerminal => s.index < interned.variables.len(),
        SymbolType::External => s.index < interned.external_tokens.len(),
        _ => false,
    };
    for s in interned.supertype_symbols.iter().chain(interned.variables_to_inline.iter()) {
        assert!(in_range(s));
    }
    for set in &interned.expected_conflicts {
        assert!(set.iter().all(|s| in_range(s)));
    }
    assert!(interned.word_token.iter().all(|s| in_range(s)));
}

#[test]
fn smallest_number_is_shown_in_full() {
    let grammar = InputGrammar {
        precedence_orderings: vec![
            vec![PrecedenceEntry::Number(i32::MIN), PrecedenceEntry::Number(0)],
            vec![PrecedenceEntry::Number(0), PrecedenceEntry::Number(i32::MIN)],
        ],
        ..Default::default()
    };
    assert_eq!(validation_message(&grammar), "Conflicting orderings for precedences -2147483648 and 0");
}

#[test]
fn reserved_words_are_interned() {
    let mut grammar = defined_symbol_grammar();
    grammar.reserved_words = vec![ReservedWordContext {
        name: "global".to_string(),
        reserved_words: vec![Rule::string("if"), Rule::NamedSymbol("heredoc".to_string())],
    }];
    let interned = intern_symbols(&grammar).ok().unwrap();
    assert_eq!(interned.reserved_word_sets.len(), 1);
    assert_eq!(interned.reserved_word_sets[0].name, "global");
    assert_eq!(
        interned.reserved_word_sets[0].reserved_words,
        vec![Rule::string("if"), Rule::Symbol(Symbol { kind: SymbolType::External, index: 0 })]
    );
}

#[test]
fn undefined_reserved_word_is_reported() {
    let mut grammar = defined_symbol_grammar();
    grammar.reserved_words = vec![ReservedWordContext {
        name: "global".to_string(),
        reserved_words: vec![Rule::NamedSymbol("nowhere".to_string())],
    }];
    match intern_symbols(&grammar) {
        Err(e) => assert_eq!(e.message(), "Undefined symbol `nowhere`"),
        Ok(_) => panic!("expected an undefined symbol"),
    }
}

#[test]
fn default_intermediate_grammar_is_empty() {
    let g: InternedGrammar = Default::default();
    assert!(g.variables.is_empty() && g.extra_symbols.is_empty() && g.external_tokens.is_empty());
    assert!(g.expected_conflicts.is_empty() && g.precedence_orderings.is_empty());
    assert!(g.variables_to_inline.is_empty() && g.supertype_symbols.is_empty());
    assert!(g.reserved_word_sets.is_empty() && g.word_token.is_none());
}
