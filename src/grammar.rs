use crate::input::{apply, CachedIter, CharsIter, Grammar};
use crate::node::Node;
use crate::rules::{sem, Expr, Repeat, RepeatMarker};
use crate::terminal::{anchored, regex_compiles};
use vstd::prelude::*;

verus! {

/// A quantifier written after an expression.
#[derive(Debug, PartialEq, Eq, Structural, Clone, Copy)]
pub enum Quantifier {
    /// `?`
    Optional,
    /// `*`
    ZeroOrMore,
    /// `+`
    OneOrMore,
    /// `{n}`
    Count(usize),
    /// `{n,}`
    Min(usize),
    /// `{,m}`
    Max(usize),
    /// `{n,m}`
    MinMax(usize, usize),
}

/// An expression of the grammar language.
#[derive(Debug)]
pub enum GExpr {
    /// A rule name, or a type parameter of the rule being defined.
    Ident(String),
    /// A generic rule applied to expressions.
    Generic(String, Vec<GExpr>),
    /// `<Name>`: a reference that may be recursive.
    Boxed(String),
    /// A quoted literal: its text and whether it ends in `s` (a substring, else a regex).
    Literal(String, bool),
    Sequence(Vec<GExpr>),
    Choice(Vec<GExpr>),
    Quantified(Box<GExpr>, Quantifier),
    /// `e ** sep`: one or more `e` separated by `sep`, at least the `n` of `e **{n,} sep`.
    Joined(Box<GExpr>, Box<GExpr>, usize),
    /// `!e`
    Not(Box<GExpr>),
    /// `(e)`
    Group(Box<GExpr>),
}

/// A field of a sequence-shaped rule.
#[derive(Debug)]
pub struct Field {
    pub name: Option<String>,
    pub ignored: bool,
    pub expr: GExpr,
}

/// The shape of a rule definition.
#[derive(Debug)]
pub enum RuleBody {
    /// `Head = expr`
    Alias(GExpr),
    /// `Head { Var(expr) ... }`
    Enum(Vec<(String, GExpr)>),
    /// `Head { name: expr, expr, ... }`
    Struct(Vec<Field>),
    /// `Head ( expr #[ignore] expr ... )`
    Tuple(Vec<Field>),
    /// `unit Head = "literal"`: a terminal whose text is dropped.
    UnitToken(GExpr),
    /// `Head: Type = "literal"`: a terminal whose text is read as a `Type`.
    ParsedToken(String, GExpr),
}

/// A rule definition: its name, its type parameters and its body.
#[derive(Debug)]
pub struct RuleDef {
    pub name: String,
    pub params: Vec<String>,
    pub body: RuleBody,
}

/// Why a grammar text could not be read or translated.
#[derive(Debug)]
pub enum GrammarError {
    /// The text is not in the grammar language; what was left where reading stopped.
    Syntax(String),
    /// The text is too long for the memo of the reader: `(len + 1) * 24` exceeds `usize::MAX`.
    TooLarge,
    /// A name that no rule defines.
    UnknownRule(String),
    /// A generic rule used with another number of arguments than it declares, or without any.
    Arity(String),
    /// A regex literal that does not compile.
    BadPattern(String),
    /// A counter such as `{}` or `{,}`, or a number out of range.
    BadCounter,
    /// Generic rules instantiated too deeply (such as a generic rule that uses itself).
    TooDeep(String),
    /// The reader of the grammar language could not be built.
    Reader,
}

// Rules of the grammar language, by index.
pub const HWS: usize = 0;
pub const WS: usize = 1;
pub const IDENT: usize = 2;
pub const STR: usize = 3;
pub const NUM: usize = 4;
pub const EXPR: usize = 5;
pub const SEQ: usize = 6;
pub const QUANT: usize = 7;
pub const SUFFIX: usize = 8;
pub const COUNTER: usize = 9;
pub const ATOM: usize = 10;
pub const ARGS: usize = 11;
pub const HEAD: usize = 12;
pub const ALIAS: usize = 13;
pub const ENUM: usize = 14;
pub const VARIANT: usize = 15;
pub const STRUCT: usize = 16;
pub const FIELD: usize = 17;
pub const TUPLE: usize = 18;
pub const TITEM: usize = 19;
pub const ITEM: usize = 20;
pub const GRAMMAR: usize = 21;
pub const UNIT_TOKEN: usize = 22;
pub const PARSED_TOKEN: usize = 23;


/// Rule `k` of the grammar language, as `language` builds it: the combinators, literals,
/// regex patterns and references it is made of.
pub open spec fn language_rule(k: int, x: Expr) -> bool {
    if k == 0 {
        x is Optional
            && is_re((*x->Optional_0), "[ \\t]+"@)
    } else if k == 1 {
        x is Repeat
            && x->Repeat_0.marker == RepeatMarker::Repeat(Repeat)
            && (*x->Repeat_0.rule) is Choice
            && (*x->Repeat_0.rule)->Choice_0.0@.len() == 3
            && is_re((*x->Repeat_0.rule)->Choice_0.0@[0], "\\s+"@)
            && is_re((*x->Repeat_0.rule)->Choice_0.0@[1], "//[^\\n]*"@)
            && is_re((*x->Repeat_0.rule)->Choice_0.0@[2], "#\\[feature\\([^)]*\\)\\]"@)
    } else if k == 2 {
        is_re(x, "[A-Za-z_][A-Za-z_0-9]*"@)
    } else if k == 3 {
        x is Sequence
            && x->Sequence_0.0@.len() == 2
            && is_re(x->Sequence_0.0@[0], "\"([^\"\\\\]|\\\\.)*\""@)
            && x->Sequence_0.0@[1] is Optional
            && is_lit((*x->Sequence_0.0@[1]->Optional_0), "s"@)
    } else if k == 4 {
        is_re(x, "[0-9]+"@)
    } else if k == 5 {
        x is Joinable
            && x->Joinable_0.min == 1
            && (*x->Joinable_0.rule) == Expr::Ref(SEQ)
            && (*x->Joinable_0.join) is Sequence
            && (*x->Joinable_0.join)->Sequence_0.0@.len() == 3
            && (*x->Joinable_0.join)->Sequence_0.0@[0] == Expr::Ref(HWS)
            && is_lit((*x->Joinable_0.join)->Sequence_0.0@[1], "/"@)
            && (*x->Joinable_0.join)->Sequence_0.0@[2] == Expr::Ref(HWS)
    } else if k == 6 {
        x is Joinable
            && x->Joinable_0.min == 1
            && (*x->Joinable_0.rule) == Expr::Ref(QUANT)
            && is_re((*x->Joinable_0.join), "[ \\t]+"@)
    } else if k == 7 {
        x is Sequence
            && x->Sequence_0.0@.len() == 2
            && x->Sequence_0.0@[0] == Expr::Ref(ATOM)
            && x->Sequence_0.0@[1] is Optional
            && (*x->Sequence_0.0@[1]->Optional_0) == Expr::Ref(SUFFIX)
    } else if k == 8 {
        x is Choice
            && x->Choice_0.0@.len() == 5
            && x->Choice_0.0@[0] is Sequence
            && x->Choice_0.0@[0]->Sequence_0.0@.len() == 5
            && x->Choice_0.0@[0]->Sequence_0.0@[0] == Expr::Ref(HWS)
            && is_lit(x->Choice_0.0@[0]->Sequence_0.0@[1], "**"@)
            && x->Choice_0.0@[0]->Sequence_0.0@[2] is Optional
            && (*x->Choice_0.0@[0]->Sequence_0.0@[2]->Optional_0) == Expr::Ref(COUNTER)
            && x->Choice_0.0@[0]->Sequence_0.0@[3] == Expr::Ref(HWS)
            && x->Choice_0.0@[0]->Sequence_0.0@[4] == Expr::Ref(ATOM)
            && is_lit(x->Choice_0.0@[1], "?"@)
            && is_lit(x->Choice_0.0@[2], "*"@)
            && is_lit(x->Choice_0.0@[3], "+"@)
            && x->Choice_0.0@[4] is Sequence
            && x->Choice_0.0@[4]->Sequence_0.0@.len() == 2
            && x->Choice_0.0@[4]->Sequence_0.0@[0] == Expr::Ref(HWS)
            && x->Choice_0.0@[4]->Sequence_0.0@[1] == Expr::Ref(COUNTER)
    } else if k == 9 {
        x is Sequence
            && x->Sequence_0.0@.len() == 7
            && is_lit(x->Sequence_0.0@[0], "{"@)
            && x->Sequence_0.0@[1] == Expr::Ref(HWS)
            && x->Sequence_0.0@[2] is Optional
            && (*x->Sequence_0.0@[2]->Optional_0) == Expr::Ref(NUM)
            && x->Sequence_0.0@[3] == Expr::Ref(HWS)
            && x->Sequence_0.0@[4] is Optional
            && (*x->Sequence_0.0@[4]->Optional_0) is Sequence
            && (*x->Sequence_0.0@[4]->Optional_0)->Sequence_0.0@.len() == 3
            && is_lit((*x->Sequence_0.0@[4]->Optional_0)->Sequence_0.0@[0], ","@)
            && (*x->Sequence_0.0@[4]->Optional_0)->Sequence_0.0@[1] == Expr::Ref(HWS)
            && (*x->Sequence_0.0@[4]->Optional_0)->Sequence_0.0@[2] is Optional
            && (*(*x->Sequence_0.0@[4]->Optional_0)->Sequence_0.0@[2]->Optional_0) == Expr::Ref(NUM)
            && x->Sequence_0.0@[5] == Expr::Ref(HWS)
            && is_lit(x->Sequence_0.0@[6], "}"@)
    } else if k == 10 {
        x is Choice
            && x->Choice_0.0@.len() == 5
            && x->Choice_0.0@[0] is Sequence
            && x->Choice_0.0@[0]->Sequence_0.0@.len() == 5
            && is_lit(x->Choice_0.0@[0]->Sequence_0.0@[0], "<"@)
            && x->Choice_0.0@[0]->Sequence_0.0@[1] == Expr::Ref(HWS)
            && x->Choice_0.0@[0]->Sequence_0.0@[2] == Expr::Ref(IDENT)
            && x->Choice_0.0@[0]->Sequence_0.0@[3] == Expr::Ref(HWS)
            && is_lit(x->Choice_0.0@[0]->Sequence_0.0@[4], ">"@)
            && x->Choice_0.0@[1] is Sequence
            && x->Choice_0.0@[1]->Sequence_0.0@.len() == 5
            && is_lit(x->Choice_0.0@[1]->Sequence_0.0@[0], "("@)
            && x->Choice_0.0@[1]->Sequence_0.0@[1] == Expr::Ref(WS)
            && x->Choice_0.0@[1]->Sequence_0.0@[2] == Expr::Ref(EXPR)
            && x->Choice_0.0@[1]->Sequence_0.0@[3] == Expr::Ref(WS)
            && is_lit(x->Choice_0.0@[1]->Sequence_0.0@[4], ")"@)
            && x->Choice_0.0@[2] is Sequence
            && x->Choice_0.0@[2]->Sequence_0.0@.len() == 3
            && is_lit(x->Choice_0.0@[2]->Sequence_0.0@[0], "!"@)
            && x->Choice_0.0@[2]->Sequence_0.0@[1] == Expr::Ref(HWS)
            && x->Choice_0.0@[2]->Sequence_0.0@[2] == Expr::Ref(ATOM)
            && x->Choice_0.0@[3] == Expr::Ref(STR)
            && x->Choice_0.0@[4] is Sequence
            && x->Choice_0.0@[4]->Sequence_0.0@.len() == 2
            && x->Choice_0.0@[4]->Sequence_0.0@[0] == Expr::Ref(IDENT)
            && x->Choice_0.0@[4]->Sequence_0.0@[1] is Optional
            && (*x->Choice_0.0@[4]->Sequence_0.0@[1]->Optional_0) == Expr::Ref(ARGS)
    } else if k == 11 {
        x is Sequence
            && x->Sequence_0.0@.len() == 6
            && x->Sequence_0.0@[0] == Expr::Ref(HWS)
            && is_lit(x->Sequence_0.0@[1], "<"@)
            && x->Sequence_0.0@[2] == Expr::Ref(WS)
            && x->Sequence_0.0@[3] is Joinable
            && x->Sequence_0.0@[3]->Joinable_0.min == 1
            && (*x->Sequence_0.0@[3]->Joinable_0.rule) == Expr::Ref(EXPR)
            && (*x->Sequence_0.0@[3]->Joinable_0.join) is Sequence
            && (*x->Sequence_0.0@[3]->Joinable_0.join)->Sequence_0.0@.len() == 3
            && (*x->Sequence_0.0@[3]->Joinable_0.join)->Sequence_0.0@[0] == Expr::Ref(WS)
            && is_lit((*x->Sequence_0.0@[3]->Joinable_0.join)->Sequence_0.0@[1], ","@)
            && (*x->Sequence_0.0@[3]->Joinable_0.join)->Sequence_0.0@[2] == Expr::Ref(WS)
            && x->Sequence_0.0@[4] == Expr::Ref(WS)
            && is_lit(x->Sequence_0.0@[5], ">"@)
    } else if k == 12 {
        x is Sequence
            && x->Sequence_0.0@.len() == 2
            && x->Sequence_0.0@[0] == Expr::Ref(IDENT)
            && x->Sequence_0.0@[1] is Optional
            && (*x->Sequence_0.0@[1]->Optional_0) is Sequence
            && (*x->Sequence_0.0@[1]->Optional_0)->Sequence_0.0@.len() == 6
            && (*x->Sequence_0.0@[1]->Optional_0)->Sequence_0.0@[0] == Expr::Ref(HWS)
            && is_lit((*x->Sequence_0.0@[1]->Optional_0)->Sequence_0.0@[1], "<"@)
            && (*x->Sequence_0.0@[1]->Optional_0)->Sequence_0.0@[2] == Expr::Ref(HWS)
            && (*x->Sequence_0.0@[1]->Optional_0)->Sequence_0.0@[3] is Joinable
            && (*x->Sequence_0.0@[1]->Optional_0)->Sequence_0.0@[3]->Joinable_0.min == 1
            && (*(*x->Sequence_0.0@[1]->Optional_0)->Sequence_0.0@[3]->Joinable_0.rule) == Expr::Ref(IDENT)
            && (*(*x->Sequence_0.0@[1]->Optional_0)->Sequence_0.0@[3]->Joinable_0.join) is Sequence
            && (*(*x->Sequence_0.0@[1]->Optional_0)->Sequence_0.0@[3]->Joinable_0.join)->Sequence_0.0@.len() == 3
            && (*(*x->Sequence_0.0@[1]->Optional_0)->Sequence_0.0@[3]->Joinable_0.join)->Sequence_0.0@[0] == Expr::Ref(HWS)
            && is_lit((*(*x->Sequence_0.0@[1]->Optional_0)->Sequence_0.0@[3]->Joinable_0.join)->Sequence_0.0@[1], ","@)
            && (*(*x->Sequence_0.0@[1]->Optional_0)->Sequence_0.0@[3]->Joinable_0.join)->Sequence_0.0@[2] == Expr::Ref(HWS)
            && (*x->Sequence_0.0@[1]->Optional_0)->Sequence_0.0@[4] == Expr::Ref(HWS)
            && is_lit((*x->Sequence_0.0@[1]->Optional_0)->Sequence_0.0@[5], ">"@)
    } else if k == 13 {
        x is Sequence
            && x->Sequence_0.0@.len() == 5
            && x->Sequence_0.0@[0] == Expr::Ref(HEAD)
            && x->Sequence_0.0@[1] == Expr::Ref(HWS)
            && is_lit(x->Sequence_0.0@[2], "="@)
            && x->Sequence_0.0@[3] == Expr::Ref(HWS)
            && x->Sequence_0.0@[4] == Expr::Ref(EXPR)
    } else if k == 14 {
        x is Sequence
            && x->Sequence_0.0@.len() == 7
            && x->Sequence_0.0@[0] == Expr::Ref(HEAD)
            && x->Sequence_0.0@[1] == Expr::Ref(HWS)
            && is_lit(x->Sequence_0.0@[2], "{"@)
            && x->Sequence_0.0@[3] == Expr::Ref(WS)
            && x->Sequence_0.0@[4] is Joinable
            && x->Sequence_0.0@[4]->Joinable_0.min == 1
            && (*x->Sequence_0.0@[4]->Joinable_0.rule) == Expr::Ref(VARIANT)
            && (*x->Sequence_0.0@[4]->Joinable_0.join) == Expr::Ref(WS)
            && x->Sequence_0.0@[5] == Expr::Ref(WS)
            && is_lit(x->Sequence_0.0@[6], "}"@)
    } else if k == 15 {
        x is Sequence
            && x->Sequence_0.0@.len() == 6
            && x->Sequence_0.0@[0] == Expr::Ref(IDENT)
            && is_lit(x->Sequence_0.0@[1], "("@)
            && x->Sequence_0.0@[2] == Expr::Ref(HWS)
            && x->Sequence_0.0@[3] == Expr::Ref(EXPR)
            && x->Sequence_0.0@[4] == Expr::Ref(HWS)
            && is_lit(x->Sequence_0.0@[5], ")"@)
    } else if k == 16 {
        x is Sequence
            && x->Sequence_0.0@.len() == 9
            && x->Sequence_0.0@[0] == Expr::Ref(HEAD)
            && x->Sequence_0.0@[1] == Expr::Ref(HWS)
            && is_lit(x->Sequence_0.0@[2], "{"@)
            && x->Sequence_0.0@[3] == Expr::Ref(WS)
            && x->Sequence_0.0@[4] is Joinable
            && x->Sequence_0.0@[4]->Joinable_0.min == 1
            && (*x->Sequence_0.0@[4]->Joinable_0.rule) == Expr::Ref(FIELD)
            && (*x->Sequence_0.0@[4]->Joinable_0.join) is Sequence
            && (*x->Sequence_0.0@[4]->Joinable_0.join)->Sequence_0.0@.len() == 3
            && (*x->Sequence_0.0@[4]->Joinable_0.join)->Sequence_0.0@[0] == Expr::Ref(HWS)
            && (*x->Sequence_0.0@[4]->Joinable_0.join)->Sequence_0.0@[1] is Optional
            && is_lit((*(*x->Sequence_0.0@[4]->Joinable_0.join)->Sequence_0.0@[1]->Optional_0), ","@)
            && (*x->Sequence_0.0@[4]->Joinable_0.join)->Sequence_0.0@[2] == Expr::Ref(WS)
            && x->Sequence_0.0@[5] == Expr::Ref(WS)
            && x->Sequence_0.0@[6] is Optional
            && is_lit((*x->Sequence_0.0@[6]->Optional_0), ","@)
            && x->Sequence_0.0@[7] == Expr::Ref(WS)
            && is_lit(x->Sequence_0.0@[8], "}"@)
    } else if k == 17 {
        x is Sequence
            && x->Sequence_0.0@.len() == 2
            && x->Sequence_0.0@[0] is Optional
            && (*x->Sequence_0.0@[0]->Optional_0) is Sequence
            && (*x->Sequence_0.0@[0]->Optional_0)->Sequence_0.0@.len() == 4
            && (*x->Sequence_0.0@[0]->Optional_0)->Sequence_0.0@[0] == Expr::Ref(IDENT)
            && (*x->Sequence_0.0@[0]->Optional_0)->Sequence_0.0@[1] == Expr::Ref(HWS)
            && is_lit((*x->Sequence_0.0@[0]->Optional_0)->Sequence_0.0@[2], ":"@)
            && (*x->Sequence_0.0@[0]->Optional_0)->Sequence_0.0@[3] == Expr::Ref(HWS)
            && x->Sequence_0.0@[1] == Expr::Ref(EXPR)
    } else if k == 18 {
        x is Sequence
            && x->Sequence_0.0@.len() == 7
            && x->Sequence_0.0@[0] == Expr::Ref(HEAD)
            && x->Sequence_0.0@[1] == Expr::Ref(HWS)
            && is_lit(x->Sequence_0.0@[2], "("@)
            && x->Sequence_0.0@[3] == Expr::Ref(HWS)
            && x->Sequence_0.0@[4] is Joinable
            && x->Sequence_0.0@[4]->Joinable_0.min == 1
            && (*x->Sequence_0.0@[4]->Joinable_0.rule) == Expr::Ref(TITEM)
            && is_re((*x->Sequence_0.0@[4]->Joinable_0.join), "[ \\t]+"@)
            && x->Sequence_0.0@[5] == Expr::Ref(HWS)
            && is_lit(x->Sequence_0.0@[6], ")"@)
    } else if k == 19 {
        x is Sequence
            && x->Sequence_0.0@.len() == 2
            && x->Sequence_0.0@[0] is Optional
            && (*x->Sequence_0.0@[0]->Optional_0) is Sequence
            && (*x->Sequence_0.0@[0]->Optional_0)->Sequence_0.0@.len() == 2
            && is_lit((*x->Sequence_0.0@[0]->Optional_0)->Sequence_0.0@[0], "#[ignore]"@)
            && (*x->Sequence_0.0@[0]->Optional_0)->Sequence_0.0@[1] == Expr::Ref(HWS)
            && x->Sequence_0.0@[1] == Expr::Ref(QUANT)
    } else if k == 20 {
        x is Choice
            && x->Choice_0.0@.len() == 6
            && x->Choice_0.0@[0] == Expr::Ref(ALIAS)
            && x->Choice_0.0@[1] == Expr::Ref(ENUM)
            && x->Choice_0.0@[2] == Expr::Ref(STRUCT)
            && x->Choice_0.0@[3] == Expr::Ref(TUPLE)
            && x->Choice_0.0@[4] == Expr::Ref(UNIT_TOKEN)
            && x->Choice_0.0@[5] == Expr::Ref(PARSED_TOKEN)
    } else if k == 21 {
        x is Sequence
            && x->Sequence_0.0@.len() == 3
            && x->Sequence_0.0@[0] == Expr::Ref(WS)
            && x->Sequence_0.0@[1] is Joinable
            && x->Sequence_0.0@[1]->Joinable_0.min == 0
            && (*x->Sequence_0.0@[1]->Joinable_0.rule) == Expr::Ref(ITEM)
            && (*x->Sequence_0.0@[1]->Joinable_0.join) == Expr::Ref(WS)
            && x->Sequence_0.0@[2] == Expr::Ref(WS)
    } else if k == 22 {
        x is Sequence
            && x->Sequence_0.0@.len() == 7
            && is_lit(x->Sequence_0.0@[0], "unit"@)
            && is_re(x->Sequence_0.0@[1], "[ \\t]+"@)
            && x->Sequence_0.0@[2] == Expr::Ref(IDENT)
            && x->Sequence_0.0@[3] == Expr::Ref(HWS)
            && is_lit(x->Sequence_0.0@[4], "="@)
            && x->Sequence_0.0@[5] == Expr::Ref(HWS)
            && x->Sequence_0.0@[6] == Expr::Ref(STR)
    } else if k == 23 {
        x is Sequence
            && x->Sequence_0.0@.len() == 9
            && x->Sequence_0.0@[0] == Expr::Ref(IDENT)
            && x->Sequence_0.0@[1] == Expr::Ref(HWS)
            && is_lit(x->Sequence_0.0@[2], ":"@)
            && x->Sequence_0.0@[3] == Expr::Ref(HWS)
            && x->Sequence_0.0@[4] == Expr::Ref(IDENT)
            && x->Sequence_0.0@[5] == Expr::Ref(HWS)
            && is_lit(x->Sequence_0.0@[6], "="@)
            && x->Sequence_0.0@[7] == Expr::Ref(HWS)
            && x->Sequence_0.0@[8] == Expr::Ref(STR)
    } else {
        false
    }
}

/// The grammar of the grammar language: its 24 rules, by their indices.
pub open spec fn grammar_language(g: Seq<Expr>) -> bool {
    g.len() == 24 && forall|k: int| 0 <= k < 24 ==> language_rule(k, #[trigger] g[k])
}

/// Every regex pattern of the grammar language compiles.
pub open spec fn language_patterns_compile() -> bool {
    regex_compiles(anchored("[ \\t]+"@))
        && regex_compiles(anchored("\\s+"@))
        && regex_compiles(anchored("//[^\\n]*"@))
        && regex_compiles(anchored("#\\[feature\\([^)]*\\)\\]"@))
        && regex_compiles(anchored("[A-Za-z_][A-Za-z_0-9]*"@))
        && regex_compiles(anchored("\"([^\"\\\\]|\\\\.)*\""@))
        && regex_compiles(anchored("[0-9]+"@))
}

pub open spec fn is_re(x: Expr, p: Seq<char>) -> bool {
    x is Token && x->Token_0 is RegExpr && x->Token_0->RegExpr_0.0.pattern() == anchored(p)
}

pub open spec fn is_lit(x: Expr, l: Seq<char>) -> bool {
    x is Token && x->Token_0 is SubStr && x->Token_0->SubStr_0.0@ == l
}

/// Rule `rule` of grammar `g` matches the whole of `s`.
pub open spec fn full_match(g: Seq<Expr>, s: Seq<char>, rule: usize) -> bool {
    sem(g, s, Expr::Ref(rule), 0, Set::empty()) matches Ok((_, q)) && q == s.len()
}

pub(crate) fn re(pattern: &str) -> (r: Result<Expr, GrammarError>)
    ensures
        r matches Ok(x) ==> is_re(x, pattern@),
        r is Ok <==> regex_compiles(anchored(pattern@)),
        r matches Err(e) ==> e is Reader,
{
    match Expr::reg_expr(pattern) {
        Ok(e) => Ok(e),
        Err(_) => Err(GrammarError::Reader),
    }
}

pub(crate) fn lit(s: &str) -> (r: Expr)
    ensures
        is_lit(r, s@),
{
    Expr::sub_str(s)
}

pub(crate) fn r(i: usize) -> (e: Expr)
    ensures
        e == Expr::Ref(i),
{
    Expr::Ref(i)
}

/// The grammar of the grammar language itself.
pub(crate) fn language() -> (r: Result<Grammar, GrammarError>)
    ensures
        r matches Ok(g) ==> grammar_language(g.rules@),
        r is Ok <==> language_patterns_compile(),
        r matches Err(e) ==> e is Reader,
{
    let mut rules: Vec<Expr> = Vec::new();
    // HWS: optional blanks within a line
    rules.push(Expr::optional(re("[ \\t]+")?));
    // WS: blanks, line breaks, comments and feature directives (every feature is on, and a
    // directive only adds features)
    rules.push(
        Expr::repeat(
            Expr::choice(vec![re("\\s+")?, re("//[^\\n]*")?, re("#\\[feature\\([^)]*\\)\\]")?]),
            RepeatMarker::Repeat(Repeat),
        ),
    );
    // IDENT
    rules.push(re("[A-Za-z_][A-Za-z_0-9]*")?);
    // STR: a quoted literal, then `s` for a substring
    rules.push(Expr::seq(vec![re("\"([^\"\\\\]|\\\\.)*\"")?, Expr::optional(lit("s"))]));
    // NUM
    rules.push(re("[0-9]+")?);
    // EXPR: sequences separated by `/`
    rules.push(Expr::join(r(SEQ), Expr::seq(vec![r(HWS), lit("/"), r(HWS)]), 1));
    // SEQ: quantified atoms separated by blanks
    rules.push(Expr::join(r(QUANT), re("[ \\t]+")?, 1));
    // QUANT
    rules.push(Expr::seq(vec![r(ATOM), Expr::optional(r(SUFFIX))]));
    // SUFFIX
    rules.push(
        Expr::choice(
            vec![
                Expr::seq(vec![r(HWS), lit("**"), Expr::optional(r(COUNTER)), r(HWS), r(ATOM)]),
                lit("?"),
                lit("*"),
                lit("+"),
                Expr::seq(vec![r(HWS), r(COUNTER)]),
            ],
        ),
    );
    // COUNTER: `{n}`, `{n,}`, `{,m}`, `{n,m}`
    rules.push(
        Expr::seq(
            vec![
                lit("{"),
                r(HWS),
                Expr::optional(r(NUM)),
                r(HWS),
                Expr::optional(Expr::seq(vec![lit(","), r(HWS), Expr::optional(r(NUM))])),
                r(HWS),
                lit("}"),
            ],
        ),
    );
    // ATOM
    rules.push(
        Expr::choice(
            vec![
                Expr::seq(vec![lit("<"), r(HWS), r(IDENT), r(HWS), lit(">")]),
                Expr::seq(vec![lit("("), r(WS), r(EXPR), r(WS), lit(")")]),
                Expr::seq(vec![lit("!"), r(HWS), r(ATOM)]),
                r(STR),
                Expr::seq(vec![r(IDENT), Expr::optional(r(ARGS))]),
            ],
        ),
    );
    // ARGS: `<expr, ...>` after a rule name
    rules.push(
        Expr::seq(
            vec![
                r(HWS),
                lit("<"),
                r(WS),
                Expr::join(r(EXPR), Expr::seq(vec![r(WS), lit(","), r(WS)]), 1),
                r(WS),
                lit(">"),
            ],
        ),
    );
    // HEAD: a name and its type parameters
    rules.push(
        Expr::seq(
            vec![
                r(IDENT),
                Expr::optional(
                    Expr::seq(
                        vec![
                            r(HWS),
                            lit("<"),
                            r(HWS),
                            Expr::join(r(IDENT), Expr::seq(vec![r(HWS), lit(","), r(HWS)]), 1),
                            r(HWS),
                            lit(">"),
                        ],
                    ),
                ),
            ],
        ),
    );
    // ALIAS
    rules.push(Expr::seq(vec![r(HEAD), r(HWS), lit("="), r(HWS), r(EXPR)]));
    // ENUM
    rules.push(Expr::seq(vec![r(HEAD), r(HWS), lit("{"), r(WS), Expr::join(r(VARIANT), r(WS), 1), r(WS), lit("}")]));
    // VARIANT
    rules.push(Expr::seq(vec![r(IDENT), lit("("), r(HWS), r(EXPR), r(HWS), lit(")")]));
    // STRUCT
    rules.push(
        Expr::seq(
            vec![
                r(HEAD),
                r(HWS),
                lit("{"),
                r(WS),
                Expr::join(r(FIELD), Expr::seq(vec![r(HWS), Expr::optional(lit(",")), r(WS)]), 1),
                r(WS),
                Expr::optional(lit(",")),
                r(WS),
                lit("}"),
            ],
        ),
    );
    // FIELD
    rules.push(Expr::seq(vec![Expr::optional(Expr::seq(vec![r(IDENT), r(HWS), lit(":"), r(HWS)])), r(EXPR)]));
    // TUPLE
    rules.push(
        Expr::seq(
            vec![r(HEAD), r(HWS), lit("("), r(HWS), Expr::join(r(TITEM), re("[ \\t]+")?, 1), r(HWS), lit(")")],
        ),
    );
    // TITEM
    rules.push(Expr::seq(vec![Expr::optional(Expr::seq(vec![lit("#[ignore]"), r(HWS)])), r(QUANT)]));
    // ITEM
    rules.push(Expr::choice(vec![r(ALIAS), r(ENUM), r(STRUCT), r(TUPLE), r(UNIT_TOKEN), r(PARSED_TOKEN)]));
    // GRAMMAR
    rules.push(Expr::seq(vec![r(WS), Expr::join(r(ITEM), r(WS), 0), r(WS)]));
    // UNIT_TOKEN
    rules.push(Expr::seq(vec![lit("unit"), re("[ \\t]+")?, r(IDENT), r(HWS), lit("="), r(HWS), r(STR)]));
    // PARSED_TOKEN
    rules.push(Expr::seq(vec![r(IDENT), r(HWS), lit(":"), r(HWS), r(IDENT), r(HWS), lit("="), r(HWS), r(STR)]));
    Ok(Grammar { rules })
}

/// The `k`-th subtree of `n`.
pub(crate) fn part(n: &Node, k: usize) -> (r: Result<&Node, GrammarError>)
    ensures
        r matches Err(e) ==> e is Reader || e is BadCounter,
        r matches Ok(c) ==> decreases_to!(*n => *c),
{
    match n {
        Node::Sequence(o) => {
            if k < o.0.len() {
                proof {
                    assert(decreases_to!(*n => n->Sequence_0));
                    assert(decreases_to!(n->Sequence_0 => n->Sequence_0.0));
                    assert(decreases_to!(n->Sequence_0.0 => n->Sequence_0.0[k as int]));
                }
                Ok(&o.0[k])
            } else {
                Err(GrammarError::Reader)
            }
        },
        Node::List(v) => {
            if k < v.len() {
                proof {
                    assert(decreases_to!(*n => n->List_0));
                    assert(decreases_to!(n->List_0 => n->List_0[k as int]));
                }
                Ok(&v[k])
            } else {
                Err(GrammarError::Reader)
            }
        },
        Node::Variant(_, b) => {
            proof {
                assert(decreases_to!(*n => n->Variant_1));
            }
            Ok(&**b)
        },
        Node::Maybe(Some(b)) => {
            proof {
                assert(decreases_to!(*n => n->Maybe_0));
                assert(decreases_to!(n->Maybe_0 => n->Maybe_0->Some_0));
            }
            Ok(&**b)
        },
        _ => Err(GrammarError::Reader),
    }
}

/// Number of subtrees of a list node.
pub(crate) fn list_len(n: &Node) -> (r: usize) {
    match n {
        Node::List(v) => v.len(),
        _ => 0,
    }
}

/// The alternative a choice node took.
pub(crate) fn variant(n: &Node) -> (r: Result<usize, GrammarError>)
    ensures
        r matches Err(e) ==> e is Reader || e is BadCounter,
{
    match n {
        Node::Variant(i, _) => Ok(*i),
        _ => Err(GrammarError::Reader),
    }
}

/// Whether an optional node matched.
pub(crate) fn present(n: &Node) -> (r: bool) {
    match n {
        Node::Maybe(Some(_)) => true,
        _ => false,
    }
}

/// The text a terminal node covers.
pub(crate) fn text(it: &CachedIter, n: &Node) -> (r: Result<String, GrammarError>)
    requires
        it.wf(),
    ensures
        r matches Err(e) ==> e is Reader || e is BadCounter,
{
    match n {
        Node::Text(a, b) => {
            if *a <= *b && *b <= it.len() {
                Ok(it.slice(*a, *b))
            } else {
                Err(GrammarError::Reader)
            }
        },
        _ => Err(GrammarError::Reader),
    }
}

/// The value of a decimal number.
fn number(s: &String) -> (r: Result<usize, GrammarError>)
    ensures
        r matches Err(e) ==> e is Reader || e is BadCounter,
{
    let chars = crate::terminal::chars_of(s.as_str());
    let mut v: usize = 0;
    let mut i: usize = 0;
    while i < chars.len()
        invariant
            i <= chars.len(),
        decreases chars.len() - i,
    {
        let c = chars[i];
        if !('0' <= c && c <= '9') {
            return Err(GrammarError::BadCounter);
        }
        let d = (c as u32 - '0' as u32) as usize;
        if v > (usize::MAX - d) / 10 {
            return Err(GrammarError::BadCounter);
        }
        v = v * 10 + d;
        i += 1;
    }
    Ok(v)
}

/// `e`, or the choice of the sequences of an expression node.
fn read_expr(it: &CachedIter, n: &Node) -> (r: Result<GExpr, GrammarError>)
    requires
        it.wf(),
    ensures
        r matches Err(e) ==> e is Reader || e is BadCounter,
    decreases n,
{
    let count = list_len(n);
    let mut alts: Vec<GExpr> = Vec::new();
    let mut i: usize = 0;
    while i < count
        invariant
            it.wf(),
        decreases count - i,
    {
        let c = part(n, i)?;
        alts.push(read_seq(it, c)?);
        i += 1;
    }
    if alts.len() == 1 {
        Ok(alts.pop().unwrap())
    } else if alts.len() == 0 {
        Err(GrammarError::Reader)
    } else {
        Ok(GExpr::Choice(alts))
    }
}

fn read_seq(it: &CachedIter, n: &Node) -> (r: Result<GExpr, GrammarError>)
    requires
        it.wf(),
    ensures
        r matches Err(e) ==> e is Reader || e is BadCounter,
    decreases n,
{
    let count = list_len(n);
    let mut items: Vec<GExpr> = Vec::new();
    let mut i: usize = 0;
    while i < count
        invariant
            it.wf(),
        decreases count - i,
    {
        let c = part(n, i)?;
        items.push(read_quant(it, c)?);
        i += 1;
    }
    if items.len() == 1 {
        Ok(items.pop().unwrap())
    } else if items.len() == 0 {
        Err(GrammarError::Reader)
    } else {
        Ok(GExpr::Sequence(items))
    }
}

fn read_quant(it: &CachedIter, n: &Node) -> (r: Result<GExpr, GrammarError>)
    requires
        it.wf(),
    ensures
        r matches Err(e) ==> e is Reader || e is BadCounter,
    decreases n,
{
    let a = part(n, 0)?;
    let atom = read_atom(it, a)?;
    let m = part(n, 1)?;
    if !present(m) {
        return Ok(atom);
    }
    let suffix = part(m, 0)?;
    proof {
        assert(decreases_to!(*n => *suffix));
    }
    let which = variant(suffix)?;
    let body = part(suffix, 0)?;
    if which == 0 {
        // `** sep` or `**{n,} sep`
        let counter = part(body, 2)?;
        let min = if present(counter) {
            let c = part(counter, 0)?;
            match read_counter(it, c)? {
                Quantifier::Min(k) => {
                    if k == 0 {
                        return Err(GrammarError::BadCounter);
                    }
                    k
                },
                _ => return Err(GrammarError::BadCounter),
            }
        } else {
            1
        };
        let sep_node = part(body, 4)?;
        let sep = read_atom(it, sep_node)?;
        Ok(GExpr::Joined(Box::new(atom), Box::new(sep), min))
    } else if which == 1 {
        Ok(GExpr::Quantified(Box::new(atom), Quantifier::Optional))
    } else if which == 2 {
        Ok(GExpr::Quantified(Box::new(atom), Quantifier::ZeroOrMore))
    } else if which == 3 {
        Ok(GExpr::Quantified(Box::new(atom), Quantifier::OneOrMore))
    } else {
        let c = part(body, 1)?;
        Ok(GExpr::Quantified(Box::new(atom), read_counter(it, c)?))
    }
}

/// The quantifier of a counter node `{n}`, `{n,}`, `{,m}` or `{n,m}`.
fn read_counter(it: &CachedIter, n: &Node) -> (r: Result<Quantifier, GrammarError>)
    requires
        it.wf(),
    ensures
        r matches Err(e) ==> e is Reader || e is BadCounter,
{
    let first = part(n, 2)?;
    let low = if present(first) {
        let t = part(first, 0)?;
        Some(number(&text(it, t)?)?)
    } else {
        None
    };
    let tail = part(n, 4)?;
    if !present(tail) {
        return match low {
            Some(k) => Ok(Quantifier::Count(k)),
            None => Err(GrammarError::BadCounter),
        };
    }
    let comma = part(tail, 0)?;
    let second = part(comma, 2)?;
    let high = if present(second) {
        let t = part(second, 0)?;
        Some(number(&text(it, t)?)?)
    } else {
        None
    };
    match (low, high) {
        (Some(a), Some(b)) => Ok(Quantifier::MinMax(a, b)),
        (Some(a), None) => Ok(Quantifier::Min(a)),
        (None, Some(b)) => Ok(Quantifier::Max(b)),
        (None, None) => Err(GrammarError::BadCounter),
    }
}

/// The text between the quotes of a literal node, and whether it is a substring literal.
fn read_literal(it: &CachedIter, n: &Node) -> (r: Result<GExpr, GrammarError>)
    requires
        it.wf(),
    ensures
        r matches Err(e) ==> e is Reader || e is BadCounter,
{
    let quoted = part(n, 0)?;
    let suffix = part(n, 1)?;
    match quoted {
        Node::Text(a, b) => {
            if *a < *b && *b - *a >= 2 && *b <= it.len() {
                Ok(GExpr::Literal(it.slice(*a + 1, *b - 1), present(suffix)))
            } else {
                Err(GrammarError::Reader)
            }
        },
        _ => Err(GrammarError::Reader),
    }
}

fn read_atom(it: &CachedIter, n: &Node) -> (r: Result<GExpr, GrammarError>)
    requires
        it.wf(),
    ensures
        r matches Err(e) ==> e is Reader || e is BadCounter,
    decreases n,
{
    let which = variant(n)?;
    let body = part(n, 0)?;
    if which == 0 {
        let name = part(body, 2)?;
        Ok(GExpr::Boxed(text(it, name)?))
    } else if which == 1 {
        let inner = part(body, 2)?;
        Ok(GExpr::Group(Box::new(read_expr(it, inner)?)))
    } else if which == 2 {
        let inner = part(body, 2)?;
        Ok(GExpr::Not(Box::new(read_atom(it, inner)?)))
    } else if which == 3 {
        read_literal(it, body)
    } else {
        let name_node = part(body, 0)?;
        let name = text(it, name_node)?;
        let args = part(body, 1)?;
        if !present(args) {
            return Ok(GExpr::Ident(name));
        }
        let a = part(args, 0)?;
        let list = part(a, 3)?;
        proof {
            assert(decreases_to!(*n => *list));
        }
        let count = list_len(list);
        let mut exprs: Vec<GExpr> = Vec::new();
        let mut i: usize = 0;
        while i < count
            invariant
                it.wf(),
                decreases_to!(*n => *list),
            decreases count - i,
        {
            let c = part(list, i)?;
            exprs.push(read_expr(it, c)?);
            i += 1;
        }
        Ok(GExpr::Generic(name, exprs))
    }
}

/// The name and type parameters of a head node.
fn read_head(it: &CachedIter, n: &Node) -> (r: Result<(String, Vec<String>), GrammarError>)
    requires
        it.wf(),
    ensures
        r matches Err(e) ==> e is Reader || e is BadCounter,
{
    let name_node = part(n, 0)?;
    let name = text(it, name_node)?;
    let generics = part(n, 1)?;
    let mut params: Vec<String> = Vec::new();
    if present(generics) {
        let g = part(generics, 0)?;
        let list = part(g, 3)?;
        let count = list_len(list);
        let mut i: usize = 0;
        while i < count
            invariant
                it.wf(),
            decreases count - i,
        {
            let c = part(list, i)?;
            params.push(text(it, c)?);
            i += 1;
        }
    }
    Ok((name, params))
}

/// The fields of a struct or tuple body.
fn read_fields(it: &CachedIter, list: &Node, tuple: bool) -> (r: Result<Vec<Field>, GrammarError>)
    requires
        it.wf(),
    ensures
        r matches Err(e) ==> e is Reader || e is BadCounter,
{
    let count = list_len(list);
    let mut fields: Vec<Field> = Vec::new();
    let mut i: usize = 0;
    while i < count
        invariant
            it.wf(),
        decreases count - i,
    {
        let f = part(list, i)?;
        let label = part(f, 0)?;
        let body = part(f, 1)?;
        if tuple {
            fields.push(Field { name: None, ignored: present(label), expr: read_quant(it, body)? });
        } else {
            let name = if present(label) {
                let l = part(label, 0)?;
                let t = part(l, 0)?;
                Some(text(it, t)?)
            } else {
                None
            };
            fields.push(Field { name, ignored: false, expr: read_expr(it, body)? });
        }
        i += 1;
    }
    Ok(fields)
}

fn read_item(it: &CachedIter, n: &Node) -> (r: Result<RuleDef, GrammarError>)
    requires
        it.wf(),
    ensures
        r matches Err(e) ==> e is Reader || e is BadCounter,
{
    let which = variant(n)?;
    let body = part(n, 0)?;
    if which == 4 {
        let name_node = part(body, 2)?;
        let literal = part(body, 6)?;
        return Ok(RuleDef { name: text(it, name_node)?, params: Vec::new(), body: RuleBody::UnitToken(read_literal(it, literal)?) });
    }
    if which == 5 {
        let name_node = part(body, 0)?;
        let type_node = part(body, 4)?;
        let literal = part(body, 8)?;
        return Ok(
            RuleDef {
                name: text(it, name_node)?,
                params: Vec::new(),
                body: RuleBody::ParsedToken(text(it, type_node)?, read_literal(it, literal)?),
            },
        );
    }
    let head = part(body, 0)?;
    let (name, params) = read_head(it, head)?;
    if which == 0 {
        let e = part(body, 4)?;
        Ok(RuleDef { name, params, body: RuleBody::Alias(read_expr(it, e)?) })
    } else if which == 1 {
        let list = part(body, 4)?;
        let count = list_len(list);
        let mut variants: Vec<(String, GExpr)> = Vec::new();
        let mut i: usize = 0;
        while i < count
            invariant
                it.wf(),
            decreases count - i,
        {
            let v = part(list, i)?;
            let tag = part(v, 0)?;
            let e = part(v, 3)?;
            variants.push((text(it, tag)?, read_expr(it, e)?));
            i += 1;
        }
        Ok(RuleDef { name, params, body: RuleBody::Enum(variants) })
    } else if which == 2 {
        let list = part(body, 4)?;
        Ok(RuleDef { name, params, body: RuleBody::Struct(read_fields(it, list, false)?) })
    } else if which == 3 {
        let list = part(body, 4)?;
        Ok(RuleDef { name, params, body: RuleBody::Tuple(read_fields(it, list, true)?) })
    } else {
        Err(GrammarError::Reader)
    }
}

/// Reads the rule definitions of a grammar text. It fails with `Syntax` exactly when the
/// rule `GRAMMAR` of the grammar language does not match the whole text, holding the text
/// left where reading stopped; with `TooLarge` when the text is too long for the memo; with
/// `Reader` when a pattern of the grammar language does not compile. Once the text is
/// matched, only a counter (`BadCounter`) or the reading of the tree (`Reader`) can fail.
pub fn parse_grammar(src: &str) -> (r: Result<Vec<RuleDef>, GrammarError>)
    ensures
        r matches Err(GrammarError::Syntax(rest)) ==> exists|i: int|
            0 <= i <= src@.len() && rest@ == #[trigger] src@.subrange(i, src@.len() as int),
        !language_patterns_compile() ==> r matches Err(GrammarError::Reader),
        (r matches Err(GrammarError::TooLarge)) <==> (language_patterns_compile() && src@.len() >= usize::MAX / 24),
        language_patterns_compile() && src@.len() < usize::MAX / 24 ==> exists|g: Seq<Expr>|
            grammar_language(g) && ((r matches Err(GrammarError::Syntax(_))) <==> !full_match(g, src@, GRAMMAR)),
        r matches Err(e) ==> e is Syntax || e is TooLarge || e is Reader || e is BadCounter,
{
    let lang = match language() {
        Ok(l) => l,
        Err(x) => return Err(x),
    };
    let ghost lg = lang.rules@;
    let input = CharsIter::new(src);
    if input.len() >= usize::MAX / 24 {
        return Err(GrammarError::TooLarge);
    }
    assert((input.text().len() + 1) * lang.rules.len() <= usize::MAX) by (nonlinear_arith)
        requires input.text().len() < usize::MAX / 24, lang.rules.len() == 24;
    let mut it = CachedIter::new(input, lang);
    let ghost before = it;
    let tree = match it.full_parse(&Expr::Ref(GRAMMAR)) {
        Ok(t) => t,
        Err(e) => {
            let at = it.cursor();
            proof {
                let o = apply(before.grammar(), before.stream().text(), Expr::Ref(GRAMMAR), before.stream().pos());
                if o is Ok {
                    assert(e.residue@ == src@.subrange(at as int, src@.len() as int));
                } else {
                    assert(e.residue@ == src@.subrange(at as int, src@.len() as int));
                }
            }
            proof {
                assert(!full_match(lg, src@, GRAMMAR));
            }
            return Err(GrammarError::Syntax(e.residue));
        },
    };
    assert(full_match(lg, src@, GRAMMAR));
    let list = match part(&tree, 1) {
        Ok(l) => l,
        Err(x) => return Err(x),
    };
    let count = list_len(list);
    let mut defs: Vec<RuleDef> = Vec::new();
    let mut i: usize = 0;
    while i < count
        invariant
            it.wf(),
            language_patterns_compile(),
            src@.len() < usize::MAX / 24,
            grammar_language(lg),
            full_match(lg, src@, GRAMMAR),
        decreases count - i,
    {
        let item = match part(list, i) {
            Ok(x) => x,
            Err(x) => return Err(x),
        };
        match read_item(&it, item) {
            Ok(d) => defs.push(d),
            Err(x) => return Err(x),
        }
        i += 1;
    }
    Ok(defs)
}

} // verus!
