pub mod buffer;
pub mod core_grammar;
pub mod engine;
pub mod grammar;
pub mod input;
pub mod laws;
pub mod memory;
pub mod node;
pub mod production;
pub mod raw_str;
pub mod rules;
pub mod terminal;
pub mod translate;

pub use buffer::{BufferIter, Cursorable, Peekab};
pub use core_grammar::parse_core_grammar;
pub use grammar::{parse_grammar, Field, GExpr, GrammarError, Quantifier, RuleBody, RuleDef};
pub use input::{optional_parse, CachedIter, CharsIter, CharsIterTrait, Grammar, ParseError};
pub use node::{
    ChoiceError, CountMismatch, LessThanMin, LookaheadMatched, MinMaxRepeatError, MoreThanMax,
    Node, RuleError, SeqOutput,
};
pub use production::ProductionError;
pub use memory::{format_remaining, formated_memory_size, formated_remaining_stack};
pub use raw_str::raw_str_literal;
pub use rules::{
    ChoiceRule, Count, Expr, JoinableRule, Max, Min, MinMax, RegExprTokenRule, Repeat, RepeatMarker, RepeatRule,
    SCountRepeatRule, SMax, SMin, SMinMax, SequenceRule, SubStrToken, TokenRule,
};
pub use terminal::CompiledRegex;
pub use translate::{
    compile_grammar, translate_expression, translate_rules, Ast, Ast_Generics, GenChoice, GenToken, Generics, RuleInfo, Shape, Translation,
};
