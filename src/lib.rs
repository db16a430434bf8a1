pub mod rules;
pub mod grammars;
pub mod prepare_grammar;
pub mod laws;
pub mod intern_symbols;
