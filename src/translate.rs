use crate::grammar::{full_match, grammar_language, language_patterns_compile, parse_grammar, GRAMMAR, Field, GExpr, GrammarError, Quantifier, RuleBody, RuleDef};
use crate::input::Grammar;
use crate::memory::{decimal, digits};
use crate::rules::{Count, Expr, Max, Min, MinMax, Repeat, RepeatMarker, SCountRepeatRule, SMax, SMin, SMinMax};
use crate::terminal::{anchored, regex_compiles};
use vstd::prelude::*;
use vstd::string::StringExecFns;

verus! {

broadcast use vstd::std_specs::vec::group_vec_axioms;

/// An interned terminal: its name, its mode and its text.
#[derive(Debug)]
pub struct GenToken {
    pub name: String,
    pub is_sub_str: bool,
    pub expr: String,
}

/// An interned anonymous choice: its name, for each alternative that is a bare rule name
/// that name, and the type parameters of the rule it occurs in.
#[derive(Debug)]
pub struct GenChoice {
    pub name: String,
    pub items: Vec<Option<String>>,
    pub generics: Option<Generics>,
}

/// The interning tables of one grammar text.
#[derive(Debug)]
pub struct Ast {
    pub tokens: Vec<GenToken>,
    pub choices: Vec<GenChoice>,
}

/// The type parameters of a rule.
#[derive(Debug)]
pub struct Generics(pub Vec<String>);

/// The interning tables, with the type parameters of the rule being translated.
#[derive(Debug)]
#[allow(non_camel_case_types)]
pub struct Ast_Generics {
    pub ast: Ast,
    pub generics: Option<Generics>,
}

pub open spec fn synthetic(prefix: Seq<char>, n: nat) -> Seq<char> {
    prefix + digits(n)
}

impl Ast_Generics {
    pub fn new() -> (r: Self)
        ensures
            r.ast.tokens@.len() == 0,
            r.ast.choices@.len() == 0,
            r.generics is None,
    {
        Ast_Generics { ast: Ast { tokens: Vec::new(), choices: Vec::new() }, generics: None }
    }

    /// Interns a terminal under the name `TokenN`, N the number of terminals before it.
    pub fn gen_token(&mut self, expr: &str, is_sub_str: bool) -> (r: String)
        ensures
            r@ == synthetic("Token"@, old(self).ast.tokens@.len() as nat),
            final(self).ast.tokens@.len() == old(self).ast.tokens@.len() + 1,
            final(self).ast.tokens@.drop_last() == old(self).ast.tokens@,
            final(self).ast.tokens@.last().name@ == r@,
            final(self).ast.tokens@.last().expr@ == expr@,
            final(self).ast.tokens@.last().is_sub_str == is_sub_str,
            final(self).ast.choices == old(self).ast.choices,
    {
        let mut name = String::from_str("Token");
        proof {
            reveal_strlit("Token");
        }
        let n = self.ast.tokens.len() as u64;
        let num = decimal(n);
        name.append(num.as_str());
        self.gen_token_by_name(expr, is_sub_str, &name);
        name
    }

    /// Interns a terminal under `name`.
    pub fn gen_token_by_name(&mut self, expr: &str, is_sub_str: bool, name: &String)
        ensures
            final(self).ast.tokens@.len() == old(self).ast.tokens@.len() + 1,
            final(self).ast.tokens@.drop_last() == old(self).ast.tokens@,
            final(self).ast.tokens@.last().name@ == name@,
            final(self).ast.tokens@.last().expr@ == expr@,
            final(self).ast.tokens@.last().is_sub_str == is_sub_str,
            final(self).ast.choices == old(self).ast.choices,
    {
        self.ast.tokens.push(GenToken { name: name.clone(), is_sub_str, expr: String::from_str(expr) });
    }

    /// Interns an anonymous choice under the name `ChoiceN`, N the number of choices before it.
    pub fn gen_choice(&mut self, items: Vec<Option<String>>) -> (r: String)
        ensures
            r@ == synthetic("Choice"@, old(self).ast.choices@.len() as nat),
            final(self).ast.choices@.len() == old(self).ast.choices@.len() + 1,
            final(self).ast.choices@.drop_last() == old(self).ast.choices@,
            final(self).ast.choices@.last().name@ == r@,
            final(self).ast.choices@.last().items@ == items@,
            final(self).ast.tokens == old(self).ast.tokens,
    {
        let mut name = String::from_str("Choice");
        proof {
            reveal_strlit("Choice");
        }
        let n = self.ast.choices.len() as u64;
        let num = decimal(n);
        name.append(num.as_str());
        self.gen_choice_by_name(items, &name);
        name
    }

    /// Interns a choice under `name`.
    pub fn gen_choice_by_name(&mut self, items: Vec<Option<String>>, name: &String)
        ensures
            final(self).ast.choices@.len() == old(self).ast.choices@.len() + 1,
            final(self).ast.choices@.drop_last() == old(self).ast.choices@,
            final(self).ast.choices@.last().name@ == name@,
            final(self).ast.choices@.last().items@ == items@,
            final(self).ast.tokens == old(self).ast.tokens,
    {
        let generics = copy_generics(&self.generics);
        self.ast.choices.push(GenChoice { name: name.clone(), items, generics });
    }
}

/// How the output of a translated rule is laid out.
#[derive(Debug)]
pub enum Shape {
    /// The output of its expression.
    Alias,
    /// A variant per alternative, with these names.
    Enum(Vec<String>),
    /// A sequence; for each item its field name, and whether it is parsed but left out.
    Struct(Vec<(Option<String>, bool)>),
    /// A terminal whose output is `Node::Unit`.
    Unit,
    /// A terminal whose text is to be read as the named type.
    Parsed(String),
}

/// A rule of a translated grammar.
#[derive(Debug)]
pub struct RuleInfo {
    pub name: String,
    pub shape: Shape,
}

/// A grammar text translated: the rules, by the same indices as their descriptions, and the
/// interning tables.
#[derive(Debug)]
pub struct Translation {
    pub grammar: Grammar,
    pub rules: Vec<RuleInfo>,
    /// How many rules, at the front, come from definitions without type parameters; the
    /// others are instances of generic definitions.
    pub named: usize,
    /// The rule definitions read from a grammar text (empty when none was read).
    pub definitions: Vec<RuleDef>,
    pub ast: Ast_Generics,
}

impl Translation {
    /// The index of the first rule called `name`.
    pub fn rule_index(&self, name: &str) -> (r: Option<usize>)
        ensures
            r matches Some(i) ==> i < self.rules@.len() && self.rules@[i as int].name@ == name@
                && forall|j: int| 0 <= j < i ==> self.rules@[j].name@ != name@,
            r is None <==> forall|j: int| 0 <= j < self.rules@.len() ==> self.rules@[j].name@ != name@,
    {
        let wanted = String::from_str(name);
        let mut i: usize = 0;
        while i < self.rules.len()
            invariant
                i <= self.rules.len(),
                wanted@ == name@,
                forall|j: int| 0 <= j < i ==> self.rules@[j].name@ != name@,
            decreases self.rules.len() - i,
        {
            if self.rules[i].name == wanted {
                return Some(i);
            }
            i += 1;
        }
        None
    }
}

/// The first definition called `n` from index `k` on.
pub open spec fn first_def_from(defs: Seq<RuleDef>, n: Seq<char>, k: int) -> Option<int>
    decreases defs.len() - k,
{
    if k < 0 || k >= defs.len() {
        None
    } else if defs[k].name@ == n {
        Some(k)
    } else {
        first_def_from(defs, n, k + 1)
    }
}

/// The first definition called `n`.
pub open spec fn first_def(defs: Seq<RuleDef>, n: Seq<char>) -> Option<int> {
    first_def_from(defs, n, 0)
}

/// The index of the rule of definition `k`: how many definitions before it take no type
/// parameters.
pub open spec fn main_index(defs: Seq<RuleDef>, k: int) -> nat
    decreases k,
{
    if k <= 0 {
        0
    } else {
        main_index(defs, k - 1) + if defs[k - 1].params@.len() == 0 {
            1nat
        } else {
            0nat
        }
    }
}

/// `e`, with no type parameter in it, translates: every name refers to a definition without
/// type parameters, no generic rule is applied, and every regex literal compiles.
pub open spec fn closed_ok(defs: Seq<RuleDef>, e: GExpr) -> bool
    decreases e,
{
    match e {
        GExpr::Ident(n) | GExpr::Boxed(n) => first_def(defs, n@) matches Some(k) && defs[k].params@.len() == 0,
        GExpr::Generic(_, _) => false,
        GExpr::Literal(t, sub) => sub || regex_compiles(anchored(t@)),
        GExpr::Sequence(items) => forall|i: int| 0 <= i < items.len() ==> closed_ok(defs, #[trigger] items[i]),
        GExpr::Choice(items) => forall|i: int| 0 <= i < items.len() ==> closed_ok(defs, #[trigger] items[i]),
        GExpr::Quantified(y, _) => closed_ok(defs, *y),
        GExpr::Joined(y, sep, _) => closed_ok(defs, *y) && closed_ok(defs, *sep),
        GExpr::Not(y) => closed_ok(defs, *y),
        GExpr::Group(y) => closed_ok(defs, *y),
    }
}

/// Every expression of a definition's body translates (see `closed_ok`).
pub open spec fn body_ok(defs: Seq<RuleDef>, b: RuleBody) -> bool {
    match b {
        RuleBody::Alias(e) => closed_ok(defs, e),
        RuleBody::UnitToken(e) => closed_ok(defs, e),
        RuleBody::ParsedToken(_, e) => closed_ok(defs, e),
        RuleBody::Enum(vs) => forall|i: int| 0 <= i < vs.len() ==> closed_ok(defs, #[trigger] vs[i].1),
        RuleBody::Struct(fs) => forall|i: int| 0 <= i < fs.len() ==> closed_ok(defs, #[trigger] fs[i].expr),
        RuleBody::Tuple(fs) => forall|i: int| 0 <= i < fs.len() ==> closed_ok(defs, #[trigger] fs[i].expr),
    }
}

/// The errors a translation can end with: a name no definition has, a generic definition
/// used with the wrong number of arguments (or none), a regex literal that does not compile,
/// or instantiation too deep.
pub open spec fn translation_error(defs: Seq<RuleDef>, e: GrammarError) -> bool {
    match e {
        GrammarError::UnknownRule(n) => first_def(defs, n@) is None,
        GrammarError::Arity(n) => first_def(defs, n@) is Some,
        GrammarError::BadPattern(t) => !regex_compiles(anchored(t@)),
        GrammarError::TooDeep(_) => true,
        _ => false,
    }
}

/// A name for a terminal: the one given, else `TokenN`.
pub open spec fn token_name(hint: Option<Seq<char>>, n: nat) -> Seq<char> {
    match hint {
        Some(h) => h,
        None => synthetic("Token"@, n),
    }
}

/// The number of subexpressions listed by a sequence or a choice.
pub open spec fn kids(e: GExpr) -> int {
    match e {
        GExpr::Sequence(items) | GExpr::Choice(items) => items.len() as int,
        _ => 0,
    }
}

/// The terminals that translating `e` interns, in order, as (name, substring mode, text),
/// `n` terminals being interned before; `hint` names `e` when it is a lone literal.
pub open spec fn token_entries(e: GExpr, n: nat, hint: Option<Seq<char>>) -> Seq<(Seq<char>, bool, Seq<char>)>
    decreases e, kids(e) + 1,
{
    match e {
        GExpr::Literal(t, sub) => seq![(token_name(hint, n), sub, t@)],
        GExpr::Sequence(_) | GExpr::Choice(_) => token_list(e, 0, n),
        GExpr::Quantified(y, _) => token_entries(*y, n, None),
        GExpr::Not(y) => token_entries(*y, n, None),
        GExpr::Group(y) => token_entries(*y, n, hint),
        GExpr::Joined(y, sep, _) => {
            let a = token_entries(*y, n, None);
            a + token_entries(*sep, n + a.len(), None)
        },
        _ => Seq::empty(),
    }
}

/// The terminals interned by the subexpressions of `e` from index `k` on.
pub open spec fn token_list(e: GExpr, k: int, n: nat) -> Seq<(Seq<char>, bool, Seq<char>)>
    decreases e, kids(e) - k,
{
    if k < 0 || k >= kids(e) {
        Seq::empty()
    } else {
        let item = match e {
            GExpr::Sequence(items) | GExpr::Choice(items) => items[k],
            _ => e,
        };
        let a = token_entries(item, n, None);
        a + token_list(e, k + 1, n + a.len())
    }
}

/// The names the alternatives of a choice give its variants: a bare name, or none.
pub open spec fn alternative_names(items: Seq<GExpr>) -> Seq<Option<Seq<char>>> {
    Seq::new(items.len(), |i: int| if items[i] is Ident { Some(items[i]->Ident_0@) } else { None })
}

/// The choices that translating `e` interns, in order, as (name, names of alternatives), `n`
/// choices being interned before: a choice comes after those inside it.
pub open spec fn choice_entries(e: GExpr, n: nat) -> Seq<(Seq<char>, Seq<Option<Seq<char>>>)>
    decreases e, kids(e) + 1,
{
    match e {
        GExpr::Sequence(_) => choice_list(e, 0, n),
        GExpr::Choice(items) => {
            let inner = choice_list(e, 0, n);
            inner.push((synthetic("Choice"@, n + inner.len()), alternative_names(items@)))
        },
        GExpr::Quantified(y, _) => choice_entries(*y, n),
        GExpr::Not(y) => choice_entries(*y, n),
        GExpr::Group(y) => choice_entries(*y, n),
        GExpr::Joined(y, sep, _) => {
            let a = choice_entries(*y, n);
            a + choice_entries(*sep, n + a.len())
        },
        _ => Seq::empty(),
    }
}

/// The choices interned by the subexpressions of `e` from index `k` on.
pub open spec fn choice_list(e: GExpr, k: int, n: nat) -> Seq<(Seq<char>, Seq<Option<Seq<char>>>)>
    decreases e, kids(e) - k,
{
    if k < 0 || k >= kids(e) {
        Seq::empty()
    } else {
        let item = match e {
            GExpr::Sequence(items) | GExpr::Choice(items) => items[k],
            _ => e,
        };
        let a = choice_entries(item, n);
        a + choice_list(e, k + 1, n + a.len())
    }
}

pub open spec fn token_view(t: GenToken) -> (Seq<char>, bool, Seq<char>) {
    (t.name@, t.is_sub_str, t.expr@)
}

pub open spec fn tokens_view(v: Seq<GenToken>) -> Seq<(Seq<char>, bool, Seq<char>)> {
    Seq::new(v.len(), |i: int| token_view(v[i]))
}

pub open spec fn choice_view(c: GenChoice) -> (Seq<char>, Seq<Option<Seq<char>>>) {
    (c.name@, Seq::new(c.items@.len(), |i: int| match c.items@[i] {
        Some(x) => Some(x@),
        None => None,
    }))
}

pub open spec fn choices_view(v: Seq<GenChoice>) -> Seq<(Seq<char>, Seq<Option<Seq<char>>>)> {
    Seq::new(v.len(), |i: int| choice_view(v[i]))
}

/// The repetition a quantifier other than `?` stands for.
pub open spec fn marker_spec(q: Quantifier) -> RepeatMarker {
    match q {
        Quantifier::OneOrMore => RepeatMarker::Min(SMin { min: 1 }),
        Quantifier::Count(n) => RepeatMarker::Count(SCountRepeatRule { count: n }),
        Quantifier::Min(n) => RepeatMarker::Min(SMin { min: n }),
        Quantifier::Max(m) => RepeatMarker::Max(SMax { max: m }),
        Quantifier::MinMax(n, m) => RepeatMarker::MinMax(SMinMax { min: n, max: m }),
        _ => RepeatMarker::Repeat(Repeat),
    }
}

/// `x` is the rule that expression `e` (with no type parameter in it) stands for: a name
/// becomes a reference, a literal a terminal of its mode, and each operator its combinator.
pub open spec fn translates(defs: Seq<RuleDef>, e: GExpr, x: Expr) -> bool
    decreases e,
{
    match e {
        GExpr::Ident(n) | GExpr::Boxed(n) => first_def(defs, n@) matches Some(k) && defs[k].params@.len() == 0
            && x == Expr::Ref(main_index(defs, k) as usize),
        GExpr::Generic(_, _) => x is Ref,
        GExpr::Literal(t, sub) => if sub {
            x is Token && x->Token_0 is SubStr && x->Token_0->SubStr_0.0@ == t@
        } else {
            x is Token && x->Token_0 is RegExpr && x->Token_0->RegExpr_0.0.pattern() == anchored(t@)
        },
        GExpr::Sequence(items) => x is Sequence && x->Sequence_0.0.len() == items.len() && forall|i: int|
            0 <= i < items.len() ==> translates(defs, #[trigger] items[i], x->Sequence_0.0[i]),
        GExpr::Choice(items) => x is Choice && x->Choice_0.0.len() == items.len() && forall|i: int|
            0 <= i < items.len() ==> translates(defs, #[trigger] items[i], x->Choice_0.0[i]),
        GExpr::Quantified(y, q) => match q {
            Quantifier::Optional => x is Optional && translates(defs, *y, *x->Optional_0),
            _ => x is Repeat && x->Repeat_0.marker == marker_spec(q) && translates(defs, *y, *x->Repeat_0.rule),
        },
        GExpr::Joined(y, sep, min) => x is Joinable && x->Joinable_0.min == min && translates(defs, *y, *x->Joinable_0.rule)
            && translates(defs, *sep, *x->Joinable_0.join),
        GExpr::Not(y) => x is NegativeLookahead && translates(defs, *y, *x->NegativeLookahead_0),
        GExpr::Group(y) => translates(defs, *y, x),
    }
}

/// `x` is the rule that a definition's body stands for: an alias its expression, an enum the
/// choice of its variants, a struct or tuple the sequence of its fields.
pub open spec fn body_translates(defs: Seq<RuleDef>, b: RuleBody, x: Expr) -> bool {
    match b {
        RuleBody::Alias(e) => translates(defs, e, x),
        RuleBody::Enum(vs) => x is Choice && x->Choice_0.0.len() == vs.len() && forall|i: int|
            0 <= i < vs.len() ==> translates(defs, #[trigger] vs[i].1, x->Choice_0.0[i]),
        RuleBody::Struct(fs) | RuleBody::Tuple(fs) => x is Sequence && x->Sequence_0.0.len() == fs.len() && forall|i: int|
            0 <= i < fs.len() ==> translates(defs, #[trigger] fs[i].expr, x->Sequence_0.0[i]),
        RuleBody::UnitToken(e) => x is Unit && translates(defs, e, *x->Unit_0),
        RuleBody::ParsedToken(_, e) => translates(defs, e, x),
    }
}

/// How deep generic rules may be instantiated within one another.
const DEPTH: usize = 32;

fn copy_generics(g: &Option<Generics>) -> (r: Option<Generics>) {
    match g {
        Some(Generics(names)) => {
            let mut out: Vec<String> = Vec::new();
            let mut i: usize = 0;
            while i < names.len()
                invariant
                    i <= names.len(),
                decreases names.len() - i,
            {
                out.push(copy_string(&names[i]));
                i += 1;
            }
            Some(Generics(out))
        },
        None => None,
    }
}

fn copy_string(s: &String) -> (r: String)
    ensures
        r@ == s@,
{
    s.clone()
}

/// A copy of `e` in which, when `bind` holds, every name bound in `env` is replaced by its
/// expression.
fn substitute(e: &GExpr, env: &Vec<(String, GExpr)>, bind: bool) -> (r: GExpr)
    decreases (if bind { 1int } else { 0int }), e,
{
    match e {
        GExpr::Ident(n) => {
            if bind {
                match lookup(env, n) {
                    Some(k) => substitute(&env[k].1, env, false),
                    None => GExpr::Ident(copy_string(n)),
                }
            } else {
                GExpr::Ident(copy_string(n))
            }
        },
        GExpr::Generic(n, args) => {
            let mut out: Vec<GExpr> = Vec::new();
            let mut i: usize = 0;
            while i < args.len()
                invariant
                    i <= args.len(),
                    *e is Generic,
                    e->Generic_1 == *args,
                decreases args.len() - i,
            {
                proof {
                    assert(decreases_to!(*e => e->Generic_1));
                    assert(decreases_to!(e->Generic_1 => e->Generic_1[i as int]));
                }
                out.push(substitute(&args[i], env, bind));
                i += 1;
            }
            GExpr::Generic(copy_string(n), out)
        },
        GExpr::Boxed(n) => GExpr::Boxed(copy_string(n)),
        GExpr::Literal(t, s) => GExpr::Literal(copy_string(t), *s),
        GExpr::Sequence(items) => {
            let mut out: Vec<GExpr> = Vec::new();
            let mut i: usize = 0;
            while i < items.len()
                invariant
                    i <= items.len(),
                    *e is Sequence,
                    e->Sequence_0 == *items,
                decreases items.len() - i,
            {
                proof {
                    assert(decreases_to!(*e => e->Sequence_0));
                    assert(decreases_to!(e->Sequence_0 => e->Sequence_0[i as int]));
                }
                out.push(substitute(&items[i], env, bind));
                i += 1;
            }
            GExpr::Sequence(out)
        },
        GExpr::Choice(items) => {
            let mut out: Vec<GExpr> = Vec::new();
            let mut i: usize = 0;
            while i < items.len()
                invariant
                    i <= items.len(),
                    *e is Choice,
                    e->Choice_0 == *items,
                decreases items.len() - i,
            {
                proof {
                    assert(decreases_to!(*e => e->Choice_0));
                    assert(decreases_to!(e->Choice_0 => e->Choice_0[i as int]));
                }
                out.push(substitute(&items[i], env, bind));
                i += 1;
            }
            GExpr::Choice(out)
        },
        GExpr::Quantified(x, q) => GExpr::Quantified(Box::new(substitute(x, env, bind)), *q),
        GExpr::Joined(x, sep, m) => GExpr::Joined(Box::new(substitute(x, env, bind)), Box::new(substitute(sep, env, bind)), *m),
        GExpr::Not(x) => GExpr::Not(Box::new(substitute(x, env, bind))),
        GExpr::Group(x) => GExpr::Group(Box::new(substitute(x, env, bind))),
    }
}

/// The position of `name` among the names bound in `env`.
fn lookup(env: &Vec<(String, GExpr)>, name: &String) -> (r: Option<usize>)
    ensures
        r matches Some(k) ==> k < env@.len(),
{
    let mut i: usize = 0;
    while i < env.len()
        invariant
            i <= env.len(),
        decreases env.len() - i,
    {
        if env[i].0 == *name {
            return Some(i);
        }
        i += 1;
    }
    None
}

/// The position of the rule definition called `name`.
fn find_def(defs: &Vec<RuleDef>, name: &String) -> (r: Option<usize>)
    ensures
        r matches Some(k) ==> k < defs@.len() && first_def(defs@, name@) == Some(k as int),
        r is None ==> first_def(defs@, name@) is None,
{
    let mut i: usize = 0;
    while i < defs.len()
        invariant
            i <= defs.len(),
            first_def(defs@, name@) == first_def_from(defs@, name@, i as int),
        decreases defs.len() - i,
    {
        if defs[i].name == *name {
            return Some(i);
        }
        i += 1;
    }
    None
}

/// What the translation has produced so far.
struct Builder {
    /// For each definition, the index of its rule, when it takes no type parameters.
    index: Vec<Option<usize>>,
    /// How many rules the definitions without type parameters make.
    main: usize,
    /// Rules made by instantiating generic definitions, after the others.
    extra: Vec<Expr>,
    extra_info: Vec<RuleInfo>,
    ast: Ast_Generics,
}

/// The builder's index of each definition's rule is `main_index`, for the definitions
/// without type parameters.
spec fn builder_ok(defs: Seq<RuleDef>, b: Builder) -> bool {
    &&& b.index@.len() == defs.len()
    &&& b.extra@.len() == b.extra_info@.len()
    &&& forall|k: int| 0 <= k < defs.len() ==> #[trigger] b.index@[k] == if defs[k].params@.len() == 0 {
        Some(main_index(defs, k) as usize)
    } else {
        None
    }
}

pub open spec fn hint_view(h: Option<&String>) -> Option<Seq<char>> {
    match h {
        Some(s) => Some(s@),
        None => None,
    }
}

/// The index of the rule a name refers to.
fn rule_ref(defs: &Vec<RuleDef>, b: &Builder, name: &String) -> (r: Result<usize, GrammarError>)
    requires
        builder_ok(defs@, *b),
    ensures
        r matches Ok(i) ==> first_def(defs@, name@) matches Some(k) && defs@[k].params@.len() == 0 && i == main_index(defs@, k) as usize,
        (first_def(defs@, name@) matches Some(k) && defs@[k].params@.len() == 0) ==> r is Ok,
        r matches Err(x) ==> translation_error(defs@, x),
{
    match find_def(defs, name) {
        Some(k) => {
            assert(b.index@[k as int] == if defs@[k as int].params@.len() == 0 {
                Some(main_index(defs@, k as int) as usize)
            } else {
                None
            });
            if k < b.index.len() {
                match b.index[k] {
                    Some(i) => Ok(i),
                    None => Err(GrammarError::Arity(copy_string(name))),
                }
            } else {
                Err(GrammarError::UnknownRule(copy_string(name)))
            }
        },
        None => Err(GrammarError::UnknownRule(copy_string(name))),
    }
}

/// The repetition a quantifier other than `?` stands for.
fn marker_of(q: Quantifier) -> (r: RepeatMarker)
    ensures
        r == marker_spec(q),
{
    match q {
        Quantifier::ZeroOrMore => RepeatMarker::Repeat(Repeat),
        Quantifier::OneOrMore => RepeatMarker::Min(SMin { min: 1 }),
        Quantifier::Count(n) => RepeatMarker::Count(SCountRepeatRule { count: n }),
        Quantifier::Min(n) => RepeatMarker::Min(SMin { min: n }),
        Quantifier::Max(m) => RepeatMarker::Max(SMax { max: m }),
        Quantifier::MinMax(n, m) => RepeatMarker::MinMax(SMinMax { min: n, max: m }),
        Quantifier::Optional => RepeatMarker::Repeat(Repeat),
    }
}

/// Translates `e`, in which the names bound in `env` stand for their expressions; `hint` names
/// a terminal that `e` is alone.
fn translate(
    defs: &Vec<RuleDef>,
    b: &mut Builder,
    e: &GExpr,
    env: &Vec<(String, GExpr)>,
    fuel: usize,
    hint: Option<&String>,
) -> (r: Result<Expr, GrammarError>)
    requires
        builder_ok(defs@, *old(b)),
    ensures
        builder_ok(defs@, *final(b)),
        final(b).index == old(b).index,
        final(b).main == old(b).main,
        r matches Err(x) ==> translation_error(defs@, x),
        env@.len() == 0 ==> (r matches Ok(x) ==> translates(defs@, *e, x)),
        env@.len() == 0 && closed_ok(defs@, *e) ==> {
            &&& r is Ok
            &&& tokens_view(final(b).ast.ast.tokens@) == tokens_view(old(b).ast.ast.tokens@) + token_entries(
                *e,
                old(b).ast.ast.tokens@.len(),
                hint_view(hint),
            )
            &&& choices_view(final(b).ast.ast.choices@) == choices_view(old(b).ast.ast.choices@) + choice_entries(
                *e,
                old(b).ast.ast.choices@.len(),
            )
        },
    decreases fuel, 0int, *e,
{
    let none: Vec<(String, GExpr)> = Vec::new();
    let ghost t0 = tokens_view(b.ast.ast.tokens@);
    let ghost c0 = choices_view(b.ast.ast.choices@);
    let ghost n0 = b.ast.ast.tokens@.len();
    let ghost m0 = b.ast.ast.choices@.len();
    match e {
        GExpr::Ident(n) | GExpr::Boxed(n) => {
            match lookup(env, n) {
                Some(k) => {
                    if fuel == 0 {
                        return Err(GrammarError::TooDeep(copy_string(n)));
                    }
                    translate(defs, b, &env[k].1, &none, fuel - 1, hint)
                },
                None => {
                    proof {
                        assert(tokens_view(b.ast.ast.tokens@) =~= t0 + token_entries(*e, n0, hint_view(hint)));
                        assert(choices_view(b.ast.ast.choices@) =~= c0 + choice_entries(*e, m0));
                    }
                    match rule_ref(defs, b, n) {
                        Ok(i) => Ok(Expr::Ref(i)),
                        Err(x) => Err(x),
                    }
                },
            }
        },
        GExpr::Generic(n, args) => {
            if fuel == 0 {
                return Err(GrammarError::TooDeep(copy_string(n)));
            }
            let k = match find_def(defs, n) {
                Some(k) => k,
                None => return Err(GrammarError::UnknownRule(copy_string(n))),
            };
            let def = &defs[k];
            if def.params.len() != args.len() || args.len() == 0 {
                return Err(GrammarError::Arity(copy_string(n)));
            }
            let mut bound: Vec<(String, GExpr)> = Vec::new();
            let mut i: usize = 0;
            while i < args.len()
                invariant
                    i <= args.len(),
                    def.params.len() == args.len(),
                decreases args.len() - i,
            {
                bound.push((copy_string(&def.params[i]), substitute(&args[i], env, true)));
                i += 1;
            }
            let mut params: Vec<String> = Vec::new();
            let mut j: usize = 0;
            while j < def.params.len()
                invariant
                    j <= def.params.len(),
                decreases def.params.len() - j,
            {
                params.push(copy_string(&def.params[j]));
                j += 1;
            }
            let outer = copy_generics(&b.ast.generics);
            b.ast.generics = Some(Generics(params));
            let body = translate_body(defs, b, def, &bound, fuel - 1, Ghost(*e));
            b.ast.generics = outer;
            let (rule, shape) = match body {
                Ok(x) => x,
                Err(x) => return Err(x),
            };
            if b.extra.len() >= usize::MAX - b.main {
                return Err(GrammarError::TooDeep(copy_string(n)));
            }
            let index = b.main + b.extra.len();
            b.extra.push(rule);
            b.extra_info.push(RuleInfo { name: copy_string(n), shape });
            Ok(Expr::Ref(index))
        },
        GExpr::Literal(text, sub) => {
            match hint {
                Some(name) => b.ast.gen_token_by_name(text.as_str(), *sub, name),
                None => {
                    b.ast.gen_token(text.as_str(), *sub);
                },
            }
            proof {
                let v = b.ast.ast.tokens@;
                assert(v.drop_last() == old(b).ast.ast.tokens@);
                assert forall|j: int| 0 <= j < v.len() - 1 implies tokens_view(v)[j] == t0[j] by {
                    assert(v[j] == v.drop_last()[j]);
                }
                assert(tokens_view(v) =~= t0 + token_entries(*e, n0, hint_view(hint)));
                assert(choices_view(b.ast.ast.choices@) =~= c0 + choice_entries(*e, m0));
            }
            if *sub {
                Ok(Expr::sub_str(text.as_str()))
            } else {
                match Expr::reg_expr(text.as_str()) {
                    Ok(x) => Ok(x),
                    Err(_) => Err(GrammarError::BadPattern(copy_string(text))),
                }
            }
        },
        GExpr::Sequence(items) | GExpr::Choice(items) => {
            let is_choice = match e {
                GExpr::Choice(_) => true,
                _ => false,
            };
            let mut out: Vec<Expr> = Vec::new();
            let mut names: Vec<Option<String>> = Vec::new();
            let mut i: usize = 0;
            while i < items.len()
                invariant
                    i <= items.len(),
                    *e is Sequence || *e is Choice,
                    is_choice == *e is Choice,
                    *e is Sequence ==> e->Sequence_0 == *items,
                    *e is Choice ==> e->Choice_0 == *items,
                    kids(*e) == items.len(),
                    builder_ok(defs@, *b),
                    b.index == old(b).index,
                    b.main == old(b).main,
                    out@.len() == i,
                    names@.len() == i,
                    forall|j: int| 0 <= j < i ==> (match #[trigger] names@[j] {
                        Some(x) => Some(x@),
                        None => None,
                    }) == alternative_names(items@)[j],
                    env@.len() == 0 ==> forall|j: int| 0 <= j < i ==> translates(defs@, #[trigger] items@[j], out@[j]),
                    env@.len() == 0 && closed_ok(defs@, *e) ==> {
                        &&& tokens_view(b.ast.ast.tokens@) + token_list(*e, i as int, b.ast.ast.tokens@.len())
                            == t0 + token_list(*e, 0, n0)
                        &&& choices_view(b.ast.ast.choices@) + choice_list(*e, i as int, b.ast.ast.choices@.len())
                            == c0 + choice_list(*e, 0, m0)
                    },
                decreases items.len() - i,
            {
                proof {
                    if *e is Sequence {
                        assert(decreases_to!(*e => e->Sequence_0));
                        assert(decreases_to!(e->Sequence_0 => e->Sequence_0[i as int]));
                    } else {
                        assert(decreases_to!(*e => e->Choice_0));
                        assert(decreases_to!(e->Choice_0 => e->Choice_0[i as int]));
                    }
                }
                names.push(
                    match &items[i] {
                        GExpr::Ident(n) => Some(copy_string(n)),
                        _ => None,
                    },
                );
                let ghost tb = tokens_view(b.ast.ast.tokens@);
                let ghost cb = choices_view(b.ast.ast.choices@);
                let ghost nb = b.ast.ast.tokens@.len();
                let ghost mb = b.ast.ast.choices@.len();
                let x = match translate(defs, b, &items[i], env, fuel, None) {
                    Ok(x) => x,
                    Err(x) => return Err(x),
                };
                proof {
                    if env@.len() == 0 && closed_ok(defs@, *e) {
                        assert(closed_ok(defs@, items@[i as int]));
                        let a = token_entries(items@[i as int], nb, None);
                        assert(token_list(*e, i as int, nb) == a + token_list(*e, i + 1, nb + a.len()));
                        assert(tokens_view(b.ast.ast.tokens@).len() == b.ast.ast.tokens@.len());
                        assert(tb.len() == nb);
                        assert(tokens_view(b.ast.ast.tokens@) + token_list(*e, i + 1, b.ast.ast.tokens@.len())
                            =~= tb + token_list(*e, i as int, nb));
                        let c = choice_entries(items@[i as int], mb);
                        assert(choice_list(*e, i as int, mb) == c + choice_list(*e, i + 1, mb + c.len()));
                        assert(choices_view(b.ast.ast.choices@).len() == b.ast.ast.choices@.len());
                        assert(cb.len() == mb);
                        assert(choices_view(b.ast.ast.choices@) + choice_list(*e, i + 1, b.ast.ast.choices@.len())
                            =~= cb + choice_list(*e, i as int, mb));
                    }
                }
                out.push(x);
                i += 1;
            }
            proof {
                if env@.len() == 0 && closed_ok(defs@, *e) {
                    assert(token_list(*e, i as int, b.ast.ast.tokens@.len()) =~= Seq::empty());
                    assert(choice_list(*e, i as int, b.ast.ast.choices@.len()) =~= Seq::empty());
                    assert(tokens_view(b.ast.ast.tokens@) =~= t0 + token_list(*e, 0, n0));
                    assert(choices_view(b.ast.ast.choices@) =~= c0 + choice_list(*e, 0, m0));
                }
            }
            if is_choice {
                let ghost before = b.ast.ast.choices@;
                b.ast.gen_choice(names);
                proof {
                    let v = b.ast.ast.choices@;
                    assert(v.drop_last() == before);
                    assert(choice_view(v.last()).1 =~= alternative_names(items@));
                    assert forall|j: int| 0 <= j < v.len() - 1 implies choices_view(v)[j] == choices_view(before)[j] by {
                        assert(v[j] == v.drop_last()[j]);
                    }
                    if env@.len() == 0 && closed_ok(defs@, *e) {
                        assert(choices_view(v) =~= c0 + choice_entries(*e, m0));
                    }
                }
                Ok(Expr::choice(out))
            } else {
                Ok(Expr::seq(out))
            }
        },
        GExpr::Quantified(x, q) => {
            let inner = match translate(defs, b, x, env, fuel, None) {
                Ok(v) => v,
                Err(v) => return Err(v),
            };
            match q {
                Quantifier::Optional => Ok(Expr::optional(inner)),
                _ => Ok(Expr::repeat(inner, marker_of(*q))),
            }
        },
        GExpr::Joined(x, sep, min) => {
            let item = match translate(defs, b, x, env, fuel, None) {
                Ok(v) => v,
                Err(v) => return Err(v),
            };
            let join = match translate(defs, b, sep, env, fuel, None) {
                Ok(v) => v,
                Err(v) => return Err(v),
            };
            proof {
                if env@.len() == 0 && closed_ok(defs@, *e) {
                    assert(tokens_view(b.ast.ast.tokens@) =~= t0 + token_entries(*e, n0, hint_view(hint)));
                    assert(choices_view(b.ast.ast.choices@) =~= c0 + choice_entries(*e, m0));
                }
            }
            Ok(Expr::join(item, join, *min))
        },
        GExpr::Not(x) => {
            match translate(defs, b, x, env, fuel, None) {
                Ok(v) => Ok(Expr::not(v)),
                Err(v) => Err(v),
            }
        },
        GExpr::Group(x) => translate(defs, b, x, env, fuel, hint),
    }
}

/// Translates the body of `def` with its type parameters bound by `env`.
fn translate_body(
    defs: &Vec<RuleDef>,
    b: &mut Builder,
    def: &RuleDef,
    env: &Vec<(String, GExpr)>,
    fuel: usize,
    Ghost(from): Ghost<GExpr>,
) -> (r: Result<(Expr, Shape), GrammarError>)
    requires
        builder_ok(defs@, *old(b)),
    ensures
        builder_ok(defs@, *final(b)),
        final(b).index == old(b).index,
        final(b).main == old(b).main,
        r matches Err(x) ==> translation_error(defs@, x),
        env@.len() == 0 ==> (r matches Ok(res) ==> body_translates(defs@, def.body, res.0)),
        env@.len() == 0 && body_ok(defs@, def.body) ==> r is Ok,
        env@.len() == 0 && body_ok(defs@, def.body) && def.body is Alias ==> {
            &&& tokens_view(final(b).ast.ast.tokens@) == tokens_view(old(b).ast.ast.tokens@) + token_entries(
                def.body->Alias_0,
                old(b).ast.ast.tokens@.len(),
                if def.body->Alias_0 is Literal { Some(def.name@) } else { None },
            )
            &&& choices_view(final(b).ast.ast.choices@) == choices_view(old(b).ast.ast.choices@) + choice_entries(
                def.body->Alias_0,
                old(b).ast.ast.choices@.len(),
            )
        },
    decreases fuel, 1int, from,
{
    match &def.body {
        RuleBody::Alias(e) => {
            let hint = match e {
                GExpr::Literal(..) => Some(&def.name),
                _ => None,
            };
            match translate(defs, b, e, env, fuel, hint) {
                Ok(x) => Ok((x, Shape::Alias)),
                Err(x) => Err(x),
            }
        },
        RuleBody::UnitToken(e) => {
            match translate(defs, b, e, env, fuel, Some(&def.name)) {
                Ok(x) => Ok((Expr::Unit(Box::new(x)), Shape::Unit)),
                Err(x) => Err(x),
            }
        },
        RuleBody::ParsedToken(ty, e) => {
            match translate(defs, b, e, env, fuel, Some(&def.name)) {
                Ok(x) => Ok((x, Shape::Parsed(copy_string(ty)))),
                Err(x) => Err(x),
            }
        },
        RuleBody::Enum(variants) => {
            let mut out: Vec<Expr> = Vec::new();
            let mut names: Vec<String> = Vec::new();
            let mut i: usize = 0;
            while i < variants.len()
                invariant
                    i <= variants.len(),
                    builder_ok(defs@, *b),
                    b.index == old(b).index,
                    b.main == old(b).main,
                    def.body is Enum,
                    def.body->Enum_0 == *variants,
                    out@.len() == i,
                    env@.len() == 0 ==> forall|j: int| 0 <= j < i ==> translates(defs@, #[trigger] variants@[j].1, out@[j]),
                decreases variants.len() - i,
            {
                let (tag, e) = &variants[i];
                proof {
                    if env@.len() == 0 && body_ok(defs@, def.body) {
                        assert(closed_ok(defs@, variants@[i as int].1));
                    }
                }
                let hint = match e {
                    GExpr::Literal(..) => Some(tag),
                    _ => None,
                };
                match translate(defs, b, e, env, fuel, hint) {
                    Ok(x) => out.push(x),
                    Err(x) => return Err(x),
                }
                names.push(copy_string(tag));
                i += 1;
            }
            Ok((Expr::choice(out), Shape::Enum(names)))
        },
        RuleBody::Struct(fields) | RuleBody::Tuple(fields) => {
            let mut out: Vec<Expr> = Vec::new();
            let mut layout: Vec<(Option<String>, bool)> = Vec::new();
            let mut i: usize = 0;
            while i < fields.len()
                invariant
                    i <= fields.len(),
                    builder_ok(defs@, *b),
                    b.index == old(b).index,
                    b.main == old(b).main,
                    (def.body is Struct && def.body->Struct_0 == *fields) || (def.body is Tuple && def.body->Tuple_0 == *fields),
                    out@.len() == i,
                    env@.len() == 0 ==> forall|j: int| 0 <= j < i ==> translates(defs@, #[trigger] fields@[j].expr, out@[j]),
                decreases fields.len() - i,
            {
                let f: &Field = &fields[i];
                proof {
                    if env@.len() == 0 && body_ok(defs@, def.body) {
                        if def.body is Struct {
                            assert(closed_ok(defs@, def.body->Struct_0[i as int].expr));
                        } else {
                            assert(closed_ok(defs@, def.body->Tuple_0[i as int].expr));
                        }
                    }
                }
                let hint = match (&f.expr, &f.name) {
                    (GExpr::Literal(..), Some(n)) => Some(n),
                    _ => None,
                };
                match translate(defs, b, &f.expr, env, fuel, hint) {
                    Ok(x) => out.push(x),
                    Err(x) => return Err(x),
                }
                layout.push(
                    (
                        match &f.name {
                            Some(n) => Some(copy_string(n)),
                            None => None,
                        },
                        f.ignored,
                    ),
                );
                i += 1;
            }
            Ok((Expr::seq(out), Shape::Struct(layout)))
        },
    }
}

/// A builder for `defs` with empty tables.
fn builder_for(defs: &Vec<RuleDef>) -> (b: Builder)
    ensures
        builder_ok(defs@, b),
        b.extra@.len() == 0,
        b.ast.ast.tokens@.len() == 0,
        b.ast.ast.choices@.len() == 0,
        b.ast.generics is None,
{
    let mut index: Vec<Option<usize>> = Vec::new();
    let mut main: usize = 0;
    let mut i: usize = 0;
    while i < defs.len()
        invariant
            i <= defs.len(),
            index.len() == i,
            main <= i,
            main == main_index(defs@, i as int),
            forall|k: int| 0 <= k < i ==> #[trigger] index@[k] == if defs@[k].params@.len() == 0 {
                Some(main_index(defs@, k) as usize)
            } else {
                None
            },
        decreases defs.len() - i,
    {
        if defs[i].params.len() == 0 {
            index.push(Some(main));
            main += 1;
        } else {
            index.push(None);
        }
        i += 1;
    }
    Builder { index, main, extra: Vec::new(), extra_info: Vec::new(), ast: Ast_Generics::new() }
}

/// Translates one expression of `defs` (with no type parameter in it), interning its
/// terminals and choices in `tables`; `hint` names it when it is a lone literal.
pub fn translate_expression(
    defs: &Vec<RuleDef>,
    tables: &mut Ast_Generics,
    e: &GExpr,
    hint: Option<&String>,
) -> (r: Result<Expr, GrammarError>)
    ensures
        r matches Err(x) ==> translation_error(defs@, x),
        r matches Ok(x) ==> translates(defs@, *e, x),
        closed_ok(defs@, *e) ==> {
            &&& r is Ok
            &&& tokens_view(final(tables).ast.tokens@) == tokens_view(old(tables).ast.tokens@) + token_entries(
                *e,
                old(tables).ast.tokens@.len(),
                hint_view(hint),
            )
            &&& choices_view(final(tables).ast.choices@) == choices_view(old(tables).ast.choices@) + choice_entries(
                *e,
                old(tables).ast.choices@.len(),
            )
        },
{
    let mut b = builder_for(defs);
    core::mem::swap(&mut b.ast, tables);
    let none: Vec<(String, GExpr)> = Vec::new();
    let r = translate(defs, &mut b, e, &none, DEPTH, hint);
    core::mem::swap(&mut b.ast, tables);
    r
}

/// Translates rule definitions: those without type parameters in order, then the instances
/// of generic definitions that they use.
pub fn translate_rules(defs: &Vec<RuleDef>) -> (r: Result<Translation, GrammarError>)
    ensures
        r matches Ok(t) ==> translation_of(defs@, t.grammar, t.rules@, t.named),
        r matches Err(x) ==> translation_error(defs@, x),
        (forall|i: int| 0 <= i < defs@.len() && (#[trigger] defs@[i]).params@.len() == 0 ==> body_ok(defs@, defs@[i].body))
            ==> r is Ok,
        aliases_ok(defs@) ==> (r matches Ok(t) && tokens_view(t.ast.ast.tokens@) == rules_tokens(defs@, 0, 0)
            && choices_view(t.ast.ast.choices@) == rules_choices(defs@, 0, 0)),
{
    let mut b = builder_for(defs);
    assert(tokens_view(b.ast.ast.tokens@) =~= Seq::empty());
    assert(choices_view(b.ast.ast.choices@) =~= Seq::empty());
    let mut rules: Vec<Expr> = Vec::new();
    let mut infos: Vec<RuleInfo> = Vec::new();
    let none: Vec<(String, GExpr)> = Vec::new();
    let ghost mut from: Seq<int> = Seq::empty();
    let mut k: usize = 0;
    while k < defs.len()
        invariant
            k <= defs.len(),
            rules@.len() == infos@.len(),
            rules@.len() == from.len(),
            rules@.len() <= k,
            none@.len() == 0,
            builder_ok(defs@, b),
            rules@.len() == main_index(defs@, k as int),
            forall|j: int|
                0 <= j < rules@.len() ==> 0 <= #[trigger] from[j] < defs@.len() && defs@[from[j]].params@.len() == 0
                    && defs@[from[j]].name@ == infos@[j].name@ && main_index(defs@, from[j]) == j
                    && body_translates(defs@, defs@[from[j]].body, rules@[j]),
            aliases_ok(defs@) ==> {
                &&& tokens_view(b.ast.ast.tokens@) + rules_tokens(defs@, k as int, b.ast.ast.tokens@.len())
                    == rules_tokens(defs@, 0, 0)
                &&& choices_view(b.ast.ast.choices@) + rules_choices(defs@, k as int, b.ast.ast.choices@.len())
                    == rules_choices(defs@, 0, 0)
            },
        decreases defs.len() - k,
    {
        let ghost tb = tokens_view(b.ast.ast.tokens@);
        let ghost cb = choices_view(b.ast.ast.choices@);
        let ghost nb = b.ast.ast.tokens@.len();
        let ghost mb = b.ast.ast.choices@.len();
        if defs[k].params.len() == 0 {
            b.ast.generics = None;
            assert(tokens_view(b.ast.ast.tokens@) == tb && choices_view(b.ast.ast.choices@) == cb);
            let (rule, shape) = match translate_body(defs, &mut b, &defs[k], &none, DEPTH, Ghost(arbitrary())) {
                Ok(x) => x,
                Err(x) => return Err(x),
            };
            proof {
                if aliases_ok(defs@) {
                    assert(defs@[k as int].params@.len() == 0);
                    assert(tb.len() == nb && cb.len() == mb);
                    assert(tokens_view(b.ast.ast.tokens@).len() == b.ast.ast.tokens@.len());
                    assert(choices_view(b.ast.ast.choices@).len() == b.ast.ast.choices@.len());
                    assert(tokens_view(b.ast.ast.tokens@) + rules_tokens(defs@, k + 1, b.ast.ast.tokens@.len())
                        =~= tb + rules_tokens(defs@, k as int, nb));
                    assert(choices_view(b.ast.ast.choices@) + rules_choices(defs@, k + 1, b.ast.ast.choices@.len())
                        =~= cb + rules_choices(defs@, k as int, mb));
                }
            }
            rules.push(rule);
            infos.push(RuleInfo { name: copy_string(&defs[k].name), shape });
            proof {
                from = from.push(k as int);
            }
        }
        k += 1;
    }
    proof {
        if aliases_ok(defs@) {
            assert(rules_tokens(defs@, k as int, b.ast.ast.tokens@.len()) =~= Seq::empty());
            assert(rules_choices(defs@, k as int, b.ast.ast.choices@.len()) =~= Seq::empty());
            assert(tokens_view(b.ast.ast.tokens@) =~= rules_tokens(defs@, 0, 0));
            assert(choices_view(b.ast.ast.choices@) =~= rules_choices(defs@, 0, 0));
        }
    }
    let named = rules.len();
    let ghost front = rules@;
    let ghost front_info = infos@;
    rules.append(&mut b.extra);
    infos.append(&mut b.extra_info);
    assert(rules@.len() == infos@.len());
    assert(named <= rules@.len());
    assert(forall|j: int| 0 <= j < named ==> rules@[j] == front[j] && infos@[j] == front_info[j]);
    let ghost rs = rules@;
    let ghost is = infos@;
    let t = Translation { grammar: Grammar { rules }, rules: infos, named, definitions: Vec::new(), ast: b.ast };
    assert(t.grammar.rules@ == rs);
    assert(t.rules@ == is);
    assert(t.grammar.rules@.len() == t.rules@.len());
    assert forall|k: int| #![trigger t.grammar.rules@[k]]
        0 <= k < t.named implies exists|i: int|
            0 <= i < defs@.len() && (#[trigger] defs@[i]).params@.len() == 0 && defs@[i].name@ == t.rules@[k].name@
                && main_index(defs@, i) == k && body_translates(defs@, defs@[i].body, t.grammar.rules@[k]) by {
        assert(rs[k] == t.grammar.rules@[k]);
        let i = from[k];
        assert(0 <= i < defs@.len() && defs@[i].params@.len() == 0 && defs@[i].name@ == t.rules@[k].name@
            && main_index(defs@, i) == k && body_translates(defs@, defs@[i].body, t.grammar.rules@[k]));
    }
    Ok(t)
}

/// The name an alias definition gives a literal that is its whole body.
pub open spec fn alias_hint(d: RuleDef) -> Option<Seq<char>> {
    if d.body->Alias_0 is Literal {
        Some(d.name@)
    } else {
        None
    }
}

/// Every definition without type parameters is an alias whose expression translates.
pub open spec fn aliases_ok(defs: Seq<RuleDef>) -> bool {
    forall|i: int|
        0 <= i < defs.len() && (#[trigger] defs[i]).params@.len() == 0 ==> defs[i].body is Alias && body_ok(
            defs,
            defs[i].body,
        )
}

/// The terminals interned by the alias definitions of `defs` from index `k` on, `n` being
/// interned before.
pub open spec fn rules_tokens(defs: Seq<RuleDef>, k: int, n: nat) -> Seq<(Seq<char>, bool, Seq<char>)>
    decreases defs.len() - k,
{
    if k < 0 || k >= defs.len() {
        Seq::empty()
    } else if defs[k].params@.len() != 0 || !(defs[k].body is Alias) {
        rules_tokens(defs, k + 1, n)
    } else {
        let a = token_entries(defs[k].body->Alias_0, n, alias_hint(defs[k]));
        a + rules_tokens(defs, k + 1, n + a.len())
    }
}

/// The choices interned by the alias definitions of `defs` from index `k` on.
pub open spec fn rules_choices(defs: Seq<RuleDef>, k: int, n: nat) -> Seq<(Seq<char>, Seq<Option<Seq<char>>>)>
    decreases defs.len() - k,
{
    if k < 0 || k >= defs.len() {
        Seq::empty()
    } else if defs[k].params@.len() != 0 || !(defs[k].body is Alias) {
        rules_choices(defs, k + 1, n)
    } else {
        let a = choice_entries(defs[k].body->Alias_0, n);
        a + rules_choices(defs, k + 1, n + a.len())
    }
}

/// What `translate_rules` promises of a translation of `defs`.
pub open spec fn translation_of(defs: Seq<RuleDef>, grammar: Grammar, rules: Seq<RuleInfo>, named: usize) -> bool {
    &&& grammar.rules@.len() == rules.len()
    &&& named <= rules.len()
    &&& forall|k: int| #![trigger grammar.rules@[k]]
        0 <= k < named ==> exists|i: int|
            0 <= i < defs.len() && (#[trigger] defs[i]).params@.len() == 0 && defs[i].name@ == rules[k].name@
                && main_index(defs, i) == k && body_translates(defs, defs[i].body, grammar.rules@[k])
}

/// Reads and translates a grammar text, keeping the definitions read. A reading error is
/// `parse_grammar`'s; once read, the result is what `translate_rules` gives.
pub fn compile_grammar(src: &str) -> (r: Result<Translation, GrammarError>)
    ensures
        r matches Ok(t) ==> translation_of(t.definitions@, t.grammar, t.rules@, t.named),
        r matches Ok(t) ==> (aliases_ok(t.definitions@) ==> tokens_view(t.ast.ast.tokens@) == rules_tokens(
            t.definitions@,
            0,
            0,
        ) && choices_view(t.ast.ast.choices@) == rules_choices(t.definitions@, 0, 0)),
        r matches Err(GrammarError::Syntax(rest)) ==> exists|i: int|
            0 <= i <= src@.len() && rest@ == #[trigger] src@.subrange(i, src@.len() as int),
        !language_patterns_compile() ==> r matches Err(GrammarError::Reader),
        (r matches Err(GrammarError::TooLarge)) <==> (language_patterns_compile() && src@.len() >= usize::MAX / 24),
        language_patterns_compile() && src@.len() < usize::MAX / 24 ==> exists|g: Seq<Expr>|
            grammar_language(g) && ((r matches Err(GrammarError::Syntax(_))) <==> !full_match(g, src@, GRAMMAR)),
        r matches Err(e) ==> e is Syntax || e is TooLarge || e is Reader || e is BadCounter || e is UnknownRule
            || e is Arity || e is BadPattern || e is TooDeep,
{
    let defs = match parse_grammar(src) {
        Ok(d) => d,
        Err(x) => return Err(x),
    };
    match translate_rules(&defs) {
        Ok(mut t) => {
            let ghost before = t;
            let ghost d = defs@;
            t.definitions = defs;
            assert(t.grammar == before.grammar && t.rules == before.rules && t.named == before.named && t.ast == before.ast);
            assert(t.definitions@ == d);
            Ok(t)
        },
        Err(x) => Err(x),
    }
}

} // verus!
