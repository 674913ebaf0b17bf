use crate::node::{ErrV, NodeV};
use crate::production::ProductionError;
use crate::terminal::{regex_prefix, starts_with_at, CompiledRegex};
use vstd::prelude::*;
use vstd::set_lib::{lemma_int_range, lemma_len_subset, set_int_range};

verus! {

broadcast use vstd::std_specs::vec::group_vec_axioms;

/// A literal terminal: matches when the text at the cursor starts with these characters.
#[derive(Debug)]
pub struct SubStrToken(pub Vec<char>);

/// A regex terminal: matches the non-empty prefix that the anchored pattern matches.
#[derive(Debug)]
pub struct RegExprTokenRule(pub CompiledRegex);

/// A leaf rule.
#[derive(Debug)]
pub enum TokenRule {
    SubStr(SubStrToken),
    RegExpr(RegExprTokenRule),
}

/// Its rules, applied in order.
#[derive(Debug)]
pub struct SequenceRule(pub Vec<Expr>);

/// Its alternatives, tried in order; the first that matches wins.
#[derive(Debug)]
pub struct ChoiceRule(pub Vec<Expr>);

/// Zero or more, as many as match.
#[derive(Debug, PartialEq, Eq, Structural, Clone, Copy)]
pub struct Repeat;

/// At least `min`, as many as match.
#[derive(Debug, PartialEq, Eq, Structural, Clone, Copy)]
pub struct SMin {
    pub min: usize,
}

/// At most `max`; one more match fails the repetition.
#[derive(Debug, PartialEq, Eq, Structural, Clone, Copy)]
pub struct SMax {
    pub max: usize,
}

/// Between `min` and `max`; one more match than `max` fails the repetition.
#[derive(Debug, PartialEq, Eq, Structural, Clone, Copy)]
pub struct SMinMax {
    pub min: usize,
    pub max: usize,
}

/// Exactly `count`.
#[derive(Debug, PartialEq, Eq, Structural, Clone, Copy)]
pub struct SCountRepeatRule {
    pub count: usize,
}

/// The quantifier of a repetition.
#[derive(Debug, PartialEq, Eq, Structural, Clone, Copy)]
pub enum RepeatMarker {
    Repeat(Repeat),
    Min(SMin),
    Max(SMax),
    MinMax(SMinMax),
    Count(SCountRepeatRule),
}

/// A rule repeated under a quantifier.
#[derive(Debug)]
pub struct RepeatRule {
    pub rule: Box<Expr>,
    pub marker: RepeatMarker,
}

/// `rule (join rule)*`: the outputs of `rule`, the separators dropped; fails with
/// `LessThanMin(min)` when fewer than `min` items match.
#[derive(Debug)]
pub struct JoinableRule {
    pub rule: Box<Expr>,
    pub join: Box<Expr>,
    pub min: usize,
}

/// A rule of the combinator kernel, as a runtime tree.
#[derive(Debug)]
pub enum Expr {
    Token(TokenRule),
    Sequence(SequenceRule),
    Choice(ChoiceRule),
    Optional(Box<Expr>),
    PositiveLookahead(Box<Expr>),
    NegativeLookahead(Box<Expr>),
    Repeat(RepeatRule),
    Joinable(JoinableRule),
    /// `start body end`, yielding the output of `body`.
    Wrap(Box<Expr>, Box<Expr>, Box<Expr>),
    /// The rule of the grammar at this index.
    Ref(usize),
    /// Its rule, with the output replaced by `Node::Unit`.
    Unit(Box<Expr>),
}

/// The result of applying a rule: its output and the cursor after it, or its failure.
pub type Outcome = Result<(NodeV, int), ProductionError<ErrV>>;

/// The named rules entered at the cursor without consuming input are valid indices.
pub open spec fn act_ok(n: int, act: Set<int>) -> bool {
    act.finite() && forall|i: int| #[trigger] act.contains(i) ==> 0 <= i < n
}

/// The named rules entered at position `p` of a rule application that started at `p0` with
/// `act` entered: once input is consumed, none.
pub open spec fn act_at(p0: int, p: int, act: Set<int>) -> Set<int> {
    if p == p0 {
        act
    } else {
        Set::empty()
    }
}

pub proof fn lemma_act_insert(n: int, act: Set<int>, id: int)
    requires
        act_ok(n, act),
        0 <= id < n,
        !act.contains(id),
    ensures
        act_ok(n, act.insert(id)),
        act.insert(id).len() == act.len() + 1,
        act.insert(id).len() <= n,
{
    lemma_int_range(0, n);
    assert(act.insert(id).subset_of(set_int_range(0, n)));
    lemma_len_subset(act.insert(id), set_int_range(0, n));
}

pub proof fn lemma_act_empty(n: int)
    requires
        0 <= n,
    ensures
        act_ok(n, Set::<int>::empty()),
        Set::<int>::empty().len() == 0,
{
}

/// The bound that limits the work of `e` at one position.
pub open spec fn width(e: Expr) -> int {
    match e {
        Expr::Sequence(r) => r.0.len() as int,
        Expr::Choice(r) => r.0.len() as int,
        Expr::Repeat(r) => match r.marker {
            RepeatMarker::Max(m) => m.max as int,
            RepeatMarker::MinMax(m) => m.max as int,
            RepeatMarker::Count(c) => c.count as int,
            _ => 0,
        },
        _ => 0,
    }
}

/// A terminal at position `p` of `s`.
pub open spec fn sem_token(s: Seq<char>, t: TokenRule, p: int) -> Outcome {
    if p >= s.len() {
        Err(ProductionError::EndStream)
    } else {
        match t {
            TokenRule::SubStr(lit) => if starts_with_at(s, p, lit.0@) {
                Ok((NodeV::Text(p, p + lit.0@.len()), p + lit.0@.len()))
            } else {
                Err(ProductionError::Token(ErrV::Span(p, p + 1)))
            },
            TokenRule::RegExpr(re) => match regex_prefix(re.0.pattern(), s.subrange(p, s.len() as int)) {
                None => Err(ProductionError::Token(ErrV::RegexRuntime)),
                Some(n) => if n > 0 {
                    Ok((NodeV::Text(p, p + n), p + n))
                } else {
                    Err(ProductionError::Token(ErrV::Span(p, p + 1)))
                },
            },
        }
    }
}

/// Applying rule `e` of grammar `g` at position `p` of `s`, with the named rules in `act`
/// already entered at `p` (a rule entered again there is left recursion, and fails).
pub open spec fn sem(g: Seq<Expr>, s: Seq<char>, e: Expr, p: int, act: Set<int>) -> Outcome
    decreases s.len() - p, g.len() - act.len(), e, width(e) + 1,
    when 0 <= p <= s.len() && act_ok(g.len() as int, act)
{
    match e {
        Expr::Token(t) => sem_token(s, t, p),
        Expr::Sequence(_) => sem_seq(g, s, e, 0, p, act, p, Seq::empty()),
        Expr::Choice(_) => sem_choice(g, s, e, 0, p, act, Seq::empty()),
        Expr::Optional(x) => match sem(g, s, *x, p, act) {
            Ok((n, q)) => Ok((NodeV::Maybe(Some(Box::new(n))), q)),
            Err(_) => Ok((NodeV::Maybe(None), p)),
        },
        Expr::PositiveLookahead(x) => match sem(g, s, *x, p, act) {
            Ok((n, _)) => Ok((NodeV::Maybe(Some(Box::new(n))), p)),
            Err(ProductionError::EndStream) => Err(ProductionError::EndStream),
            Err(_) => Ok((NodeV::Maybe(None), p)),
        },
        Expr::NegativeLookahead(x) => match sem(g, s, *x, p, act) {
            Ok(_) => Err(ProductionError::Token(ErrV::LookaheadMatched)),
            Err(_) => Ok((NodeV::Unit, p)),
        },
        Expr::Repeat(r) => match r.marker {
            RepeatMarker::Repeat(_) => {
                let (items, q) = sem_star(g, s, e, p, act, p, Seq::empty());
                Ok((NodeV::List(items), q))
            },
            RepeatMarker::Min(m) => {
                let (items, q) = sem_star(g, s, e, p, act, p, Seq::empty());
                if items.len() >= m.min {
                    Ok((NodeV::List(items), q))
                } else {
                    Err(ProductionError::Token(ErrV::LessThanMin(m.min as int)))
                }
            },
            RepeatMarker::Max(m) => {
                let (items, q) = sem_upto(g, s, e, m.max as int, 0, p, act, p, Seq::empty());
                if items.len() == m.max && 0 <= p <= q <= s.len() && sem(g, s, *r.rule, q, act_at(p, q, act)) is Ok {
                    Err(ProductionError::Token(ErrV::MoreThanMax(m.max as int)))
                } else {
                    Ok((NodeV::List(items), q))
                }
            },
            RepeatMarker::MinMax(m) => {
                let (items, q) = sem_upto(g, s, e, m.max as int, 0, p, act, p, Seq::empty());
                if items.len() < m.min {
                    Err(ProductionError::Token(ErrV::MinMaxLess(m.min as int)))
                } else if items.len() == m.max && 0 <= p <= q <= s.len() && sem(g, s, *r.rule, q, act_at(p, q, act)) is Ok {
                    Err(ProductionError::Token(ErrV::MinMaxMore(m.max as int)))
                } else {
                    Ok((NodeV::List(items), q))
                }
            },
            RepeatMarker::Count(c) => match sem_count(g, s, e, c.count as int, 0, p, act, p, Seq::empty()) {
                Ok((items, q)) => if items.len() == c.count {
                    Ok((NodeV::List(items), q))
                } else {
                    Err(ProductionError::Token(ErrV::CountMismatch(c.count as int)))
                },
                Err(x) => Err(x),
            },
        },
        Expr::Joinable(j) => match sem(g, s, *j.rule, p, act) {
            Err(_) => if 0 < j.min {
                Err(ProductionError::Token(ErrV::LessThanMin(j.min as int)))
            } else {
                Ok((NodeV::List(Seq::empty()), p))
            },
            Ok((first, q)) => if p <= q <= s.len() {
                let (items, r) = sem_join(g, s, e, p, act, q, seq![first]);
                if items.len() < j.min {
                    Err(ProductionError::Token(ErrV::LessThanMin(j.min as int)))
                } else {
                    Ok((NodeV::List(items), r))
                }
            } else {
                Err(ProductionError::EndStream)
            },
        },
        Expr::Wrap(a, b, c) => match sem(g, s, *a, p, act) {
            Err(ProductionError::Token(x)) => Err(ProductionError::Token(ErrV::Sequence(0, Box::new(x)))),
            Err(ProductionError::EndStream) => Err(ProductionError::EndStream),
            Ok((_, q1)) => if p <= q1 <= s.len() {
                match sem(g, s, *b, q1, act_at(p, q1, act)) {
                    Err(ProductionError::Token(x)) => Err(ProductionError::Token(ErrV::Sequence(1, Box::new(x)))),
                    Err(ProductionError::EndStream) => Err(ProductionError::EndStream),
                    Ok((body, q2)) => if q1 <= q2 <= s.len() {
                        match sem(g, s, *c, q2, act_at(p, q2, act)) {
                            Err(ProductionError::Token(x)) => Err(ProductionError::Token(ErrV::Sequence(2, Box::new(x)))),
                            Err(ProductionError::EndStream) => Err(ProductionError::EndStream),
                            Ok((_, q3)) => Ok((body, q3)),
                        }
                    } else {
                        Err(ProductionError::EndStream)
                    },
                }
            } else {
                Err(ProductionError::EndStream)
            },
        },
        Expr::Unit(x) => match sem(g, s, *x, p, act) {
            Ok((_, q)) => Ok((NodeV::Unit, q)),
            Err(x) => Err(x),
        },
        Expr::Ref(id) => if id >= g.len() {
            Err(ProductionError::Token(ErrV::UnknownRule(id as int)))
        } else if act.contains(id as int) {
            Err(ProductionError::Token(ErrV::LeftRecursion(id as int)))
        } else {
            proof {
                lemma_act_insert(g.len() as int, act, id as int);
            }
            sem(g, s, g[id as int], p, act.insert(id as int))
        },
    }
}

/// The items of sequence `e` from index `k` on, at position `p`, after the outputs `acc`.
pub open spec fn sem_seq(
    g: Seq<Expr>,
    s: Seq<char>,
    e: Expr,
    k: int,
    p0: int,
    act0: Set<int>,
    p: int,
    acc: Seq<NodeV>,
) -> Outcome
    decreases s.len() - p, g.len() - act_at(p0, p, act0).len(), e, width(e) - k,
    when 0 <= k <= width(e) && 0 <= p0 <= p <= s.len() && act_ok(g.len() as int, act0) && e is Sequence
{
    let items = e->Sequence_0.0@;
    if k >= items.len() {
        Ok((NodeV::Sequence(acc), p))
    } else {
        match sem(g, s, items[k], p, act_at(p0, p, act0)) {
            Err(ProductionError::Token(x)) => Err(ProductionError::Token(ErrV::Sequence(k, Box::new(x)))),
            Err(ProductionError::EndStream) => Err(ProductionError::EndStream),
            Ok((n, q)) => if p <= q <= s.len() {
                sem_seq(g, s, e, k + 1, p0, act0, q, acc.push(n))
            } else {
                Err(ProductionError::EndStream)
            },
        }
    }
}

/// The alternatives of choice `e` from index `k` on, after the failures `errs`.
pub open spec fn sem_choice(
    g: Seq<Expr>,
    s: Seq<char>,
    e: Expr,
    k: int,
    p: int,
    act: Set<int>,
    errs: Seq<ProductionError<ErrV>>,
) -> Outcome
    decreases s.len() - p, g.len() - act.len(), e, width(e) - k,
    when 0 <= k <= width(e) && 0 <= p <= s.len() && act_ok(g.len() as int, act) && e is Choice
{
    let alts = e->Choice_0.0@;
    if k >= alts.len() {
        Err(ProductionError::Token(ErrV::Choice(errs)))
    } else {
        match sem(g, s, alts[k], p, act) {
            Ok((n, q)) => Ok((NodeV::Variant(k, Box::new(n)), q)),
            Err(x) => sem_choice(g, s, e, k + 1, p, act, errs.push(x)),
        }
    }
}

/// The greedy loop of repetition `e` at position `p`, after the outputs `acc`; it stops at
/// the first failure, or at a match that consumes nothing.
pub open spec fn sem_star(
    g: Seq<Expr>,
    s: Seq<char>,
    e: Expr,
    p0: int,
    act0: Set<int>,
    p: int,
    acc: Seq<NodeV>,
) -> (Seq<NodeV>, int)
    decreases s.len() - p, g.len() - act_at(p0, p, act0).len(), e, 0int,
    when 0 <= p0 <= p <= s.len() && act_ok(g.len() as int, act0) && e is Repeat
{
    match sem(g, s, *e->Repeat_0.rule, p, act_at(p0, p, act0)) {
        Ok((n, q)) => if p < q <= s.len() {
            sem_star(g, s, e, p0, act0, q, acc.push(n))
        } else {
            (acc, p)
        },
        Err(_) => (acc, p),
    }
}

/// The loop of repetition `e` that takes at most `max` items, `k` of them taken.
pub open spec fn sem_upto(
    g: Seq<Expr>,
    s: Seq<char>,
    e: Expr,
    max: int,
    k: int,
    p0: int,
    act0: Set<int>,
    p: int,
    acc: Seq<NodeV>,
) -> (Seq<NodeV>, int)
    decreases s.len() - p, g.len() - act_at(p0, p, act0).len(), e, max - k,
    when 0 <= k <= max && 0 <= p0 <= p <= s.len() && act_ok(g.len() as int, act0) && e is Repeat
{
    if k >= max {
        (acc, p)
    } else {
        match sem(g, s, *e->Repeat_0.rule, p, act_at(p0, p, act0)) {
            Ok((n, q)) => if p <= q <= s.len() {
                sem_upto(g, s, e, max, k + 1, p0, act0, q, acc.push(n))
            } else {
                (acc, p)
            },
            Err(_) => (acc, p),
        }
    }
}

/// The loop of repetition `e` that takes `count` items, `k` of them taken; the end of the
/// input fails it, another failure stops it.
pub open spec fn sem_count(
    g: Seq<Expr>,
    s: Seq<char>,
    e: Expr,
    count: int,
    k: int,
    p0: int,
    act0: Set<int>,
    p: int,
    acc: Seq<NodeV>,
) -> Result<(Seq<NodeV>, int), ProductionError<ErrV>>
    decreases s.len() - p, g.len() - act_at(p0, p, act0).len(), e, count - k,
    when 0 <= k <= count && 0 <= p0 <= p <= s.len() && act_ok(g.len() as int, act0) && e is Repeat
{
    if k >= count {
        Ok((acc, p))
    } else {
        match sem(g, s, *e->Repeat_0.rule, p, act_at(p0, p, act0)) {
            Ok((n, q)) => if p <= q <= s.len() {
                sem_count(g, s, e, count, k + 1, p0, act0, q, acc.push(n))
            } else {
                Ok((acc, p))
            },
            Err(ProductionError::EndStream) => Err(ProductionError::EndStream),
            Err(ProductionError::Token(_)) => Ok((acc, p)),
        }
    }
}

/// The loop of joined repetition `e` after its first item: `join rule` pairs, as long as both
/// match and consume something.
pub open spec fn sem_join(
    g: Seq<Expr>,
    s: Seq<char>,
    e: Expr,
    p0: int,
    act0: Set<int>,
    p: int,
    acc: Seq<NodeV>,
) -> (Seq<NodeV>, int)
    decreases s.len() - p, g.len() - act_at(p0, p, act0).len(), e, 0int,
    when 0 <= p0 <= p <= s.len() && act_ok(g.len() as int, act0) && e is Joinable
{
    let j = e->Joinable_0;
    match sem(g, s, *j.join, p, act_at(p0, p, act0)) {
        Err(_) => (acc, p),
        Ok((_, q1)) => if p <= q1 <= s.len() {
            match sem(g, s, *j.rule, q1, act_at(p0, q1, act0)) {
                Err(_) => (acc, p),
                Ok((n, q2)) => if p < q2 <= s.len() {
                    sem_join(g, s, e, p0, act0, q2, acc.push(n))
                } else {
                    (acc, p)
                },
            }
        } else {
            (acc, p)
        },
    }
}

} // verus!

verus! {

impl SubStrToken {
    pub fn new(lit: &str) -> (r: Self)
        ensures
            r.0@ == lit@,
    {
        SubStrToken(crate::terminal::chars_of(lit))
    }
}

impl RegExprTokenRule {
    /// Compiles `pattern`, anchored at the cursor.
    pub fn new(pattern: &str) -> (r: Result<Self, fancy_regex::Error>)
        ensures
            r is Ok <==> crate::terminal::regex_compiles(crate::terminal::anchored(pattern@)),
            r matches Ok(t) ==> t.0.pattern() == crate::terminal::anchored(pattern@),
    {
        match crate::terminal::compile_anchored(pattern) {
            Ok(c) => Ok(RegExprTokenRule(c)),
            Err(e) => Err(e),
        }
    }
}

/// The quantifier `{MIN,}`.
pub struct Min<const MIN: usize>;

/// The quantifier `{,MAX}`.
pub struct Max<const MAX: usize>;

/// The quantifier `{MIN,MAX}`.
pub struct MinMax<const MIN: usize, const MAX: usize>;

/// The quantifier `{COUNT}`.
pub struct Count<const COUNT: usize>;

impl<const MIN: usize> Min<MIN> {
    pub fn marker() -> (r: RepeatMarker)
        ensures
            r == RepeatMarker::Min(SMin { min: MIN }),
    {
        RepeatMarker::Min(SMin { min: MIN })
    }
}

impl<const MAX: usize> Max<MAX> {
    pub fn marker() -> (r: RepeatMarker)
        ensures
            r == RepeatMarker::Max(SMax { max: MAX }),
    {
        RepeatMarker::Max(SMax { max: MAX })
    }
}

impl<const MIN: usize, const MAX: usize> MinMax<MIN, MAX> {
    pub fn marker() -> (r: RepeatMarker)
        ensures
            r == RepeatMarker::MinMax(SMinMax { min: MIN, max: MAX }),
    {
        RepeatMarker::MinMax(SMinMax { min: MIN, max: MAX })
    }
}

impl<const COUNT: usize> Count<COUNT> {
    pub fn marker() -> (r: RepeatMarker)
        ensures
            r == RepeatMarker::Count(SCountRepeatRule { count: COUNT }),
    {
        RepeatMarker::Count(SCountRepeatRule { count: COUNT })
    }
}

impl Expr {
    /// A literal terminal.
    pub fn sub_str(lit: &str) -> (r: Expr)
        ensures
            r matches Expr::Token(TokenRule::SubStr(t)) && t.0@ == lit@,
    {
        Expr::Token(TokenRule::SubStr(SubStrToken::new(lit)))
    }

    /// A regex terminal.
    pub fn reg_expr(pattern: &str) -> (r: Result<Expr, fancy_regex::Error>)
        ensures
            r is Ok <==> crate::terminal::regex_compiles(crate::terminal::anchored(pattern@)),
            r matches Ok(e) ==> (e matches Expr::Token(TokenRule::RegExpr(t)) && t.0.pattern() == crate::terminal::anchored(pattern@)),
    {
        match RegExprTokenRule::new(pattern) {
            Ok(t) => Ok(Expr::Token(TokenRule::RegExpr(t))),
            Err(e) => Err(e),
        }
    }

    pub fn seq(items: Vec<Expr>) -> (r: Expr)
        ensures
            r matches Expr::Sequence(s) && s.0@ == items@,
    {
        Expr::Sequence(SequenceRule(items))
    }

    pub fn choice(alts: Vec<Expr>) -> (r: Expr)
        ensures
            r matches Expr::Choice(c) && c.0@ == alts@,
    {
        Expr::Choice(ChoiceRule(alts))
    }

    pub fn optional(e: Expr) -> (r: Expr)
        ensures
            r == Expr::Optional(Box::new(e)),
    {
        Expr::Optional(Box::new(e))
    }

    pub fn not(e: Expr) -> (r: Expr)
        ensures
            r == Expr::NegativeLookahead(Box::new(e)),
    {
        Expr::NegativeLookahead(Box::new(e))
    }

    pub fn repeat(e: Expr, marker: RepeatMarker) -> (r: Expr)
        ensures
            r == Expr::Repeat(RepeatRule { rule: Box::new(e), marker }),
    {
        Expr::Repeat(RepeatRule { rule: Box::new(e), marker })
    }

    pub fn join(e: Expr, sep: Expr, min: usize) -> (r: Expr)
        ensures
            r == Expr::Joinable(JoinableRule { rule: Box::new(e), join: Box::new(sep), min }),
    {
        Expr::Joinable(JoinableRule { rule: Box::new(e), join: Box::new(sep), min })
    }

    pub fn wrap(start: Expr, body: Expr, end: Expr) -> (r: Expr)
        ensures
            r == Expr::Wrap(Box::new(start), Box::new(body), Box::new(end)),
    {
        Expr::Wrap(Box::new(start), Box::new(body), Box::new(end))
    }
}

} // verus!
