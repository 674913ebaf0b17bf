use crate::input::{apply, CachedIter};
use crate::node::{ErrV, NodeV};
use crate::production::ProductionError;
use crate::rules::{
    act_at, act_ok, lemma_act_insert, sem, sem_choice, sem_count, sem_join, sem_seq, sem_star,
    sem_token, sem_upto, width, Expr, RepeatMarker, TokenRule,
};
use crate::terminal::regex_find;
use vstd::prelude::*;

verus! {

broadcast use vstd::std_specs::vec::group_vec_axioms;

/// A rule that matches ends between where it started and the end of the text.
pub proof fn lemma_sem_bounds(g: Seq<Expr>, s: Seq<char>, e: Expr, p: int, act: Set<int>)
    requires
        0 <= p <= s.len(),
        act_ok(g.len() as int, act),
    ensures
        sem(g, s, e, p, act) matches Ok((_, q)) ==> p <= q <= s.len(),
    decreases s.len() - p, g.len() - act.len(), e, width(e) + 1,
{
    match e {
        Expr::Token(t) => {},
        Expr::Sequence(_) => {
            lemma_seq_bounds(g, s, e, 0, p, act, p, Seq::empty());
        },
        Expr::Choice(_) => {
            lemma_choice_bounds(g, s, e, 0, p, act, Seq::empty());
        },
        Expr::Optional(x) => {
            lemma_sem_bounds(g, s, *x, p, act);
        },
        Expr::PositiveLookahead(x) => {},
        Expr::NegativeLookahead(x) => {},
        Expr::Repeat(r) => {
            assert(decreases_to!(e => e->Repeat_0));
            assert(decreases_to!(e->Repeat_0 => e->Repeat_0.rule));
            match r.marker {
                RepeatMarker::Repeat(_) | RepeatMarker::Min(_) => {
                    lemma_star_bounds(g, s, e, p, act, p, Seq::empty());
                },
                RepeatMarker::Max(m) => {
                    lemma_upto_bounds(g, s, e, m.max as int, 0, p, act, p, Seq::empty());
                },
                RepeatMarker::MinMax(m) => {
                    lemma_upto_bounds(g, s, e, m.max as int, 0, p, act, p, Seq::empty());
                },
                RepeatMarker::Count(c) => {
                    lemma_count_bounds(g, s, e, c.count as int, 0, p, act, p, Seq::empty());
                },
            }
        },
        Expr::Joinable(j) => {
            assert(decreases_to!(e => e->Joinable_0));
            assert(decreases_to!(e->Joinable_0 => e->Joinable_0.rule));
            lemma_sem_bounds(g, s, *j.rule, p, act);
            if let Ok((first, q)) = sem(g, s, *j.rule, p, act) {
                lemma_join_bounds(g, s, e, p, act, q, seq![first]);
            }
        },
        Expr::Wrap(a, b, c) => {
            lemma_sem_bounds(g, s, *a, p, act);
            if let Ok((_, q1)) = sem(g, s, *a, p, act) {
                lemma_sem_bounds(g, s, *b, q1, act_at(p, q1, act));
                if let Ok((_, q2)) = sem(g, s, *b, q1, act_at(p, q1, act)) {
                    lemma_sem_bounds(g, s, *c, q2, act_at(p, q2, act));
                }
            }
        },
        Expr::Unit(x) => {
            lemma_sem_bounds(g, s, *x, p, act);
        },
        Expr::Ref(id) => {
            if id < g.len() && !act.contains(id as int) {
                lemma_act_insert(g.len() as int, act, id as int);
                lemma_sem_bounds(g, s, g[id as int], p, act.insert(id as int));
            }
        },
    }
}

pub proof fn lemma_seq_bounds(
    g: Seq<Expr>,
    s: Seq<char>,
    e: Expr,
    k: int,
    p0: int,
    act0: Set<int>,
    p: int,
    acc: Seq<NodeV>,
)
    requires
        0 <= k <= width(e),
        0 <= p0 <= p <= s.len(),
        act_ok(g.len() as int, act0),
        e is Sequence,
    ensures
        sem_seq(g, s, e, k, p0, act0, p, acc) matches Ok((_, q)) ==> p <= q <= s.len(),
    decreases s.len() - p, g.len() - act_at(p0, p, act0).len(), e, width(e) - k,
{
    let items = e->Sequence_0.0@;
    if k < items.len() {
        assert(decreases_to!(e => e->Sequence_0));
        assert(decreases_to!(e->Sequence_0 => e->Sequence_0.0));
        assert(decreases_to!(e->Sequence_0.0 => e->Sequence_0.0[k]));
        lemma_sem_bounds(g, s, items[k], p, act_at(p0, p, act0));
        if let Ok((n, q)) = sem(g, s, items[k], p, act_at(p0, p, act0)) {
            lemma_seq_bounds(g, s, e, k + 1, p0, act0, q, acc.push(n));
        }
    }
}

pub proof fn lemma_choice_bounds(
    g: Seq<Expr>,
    s: Seq<char>,
    e: Expr,
    k: int,
    p: int,
    act: Set<int>,
    errs: Seq<ProductionError<ErrV>>,
)
    requires
        0 <= k <= width(e),
        0 <= p <= s.len(),
        act_ok(g.len() as int, act),
        e is Choice,
    ensures
        sem_choice(g, s, e, k, p, act, errs) matches Ok((_, q)) ==> p <= q <= s.len(),
    decreases s.len() - p, g.len() - act.len(), e, width(e) - k,
{
    let alts = e->Choice_0.0@;
    if k < alts.len() {
        assert(decreases_to!(e => e->Choice_0));
        assert(decreases_to!(e->Choice_0 => e->Choice_0.0));
        assert(decreases_to!(e->Choice_0.0 => e->Choice_0.0[k]));
        lemma_sem_bounds(g, s, alts[k], p, act);
        if let Err(x) = sem(g, s, alts[k], p, act) {
            lemma_choice_bounds(g, s, e, k + 1, p, act, errs.push(x));
        }
    }
}

pub proof fn lemma_star_bounds(g: Seq<Expr>, s: Seq<char>, e: Expr, p0: int, act0: Set<int>, p: int, acc: Seq<NodeV>)
    requires
        0 <= p0 <= p <= s.len(),
        act_ok(g.len() as int, act0),
        e is Repeat,
    ensures
        p <= sem_star(g, s, e, p0, act0, p, acc).1 <= s.len(),
        sem_star(g, s, e, p0, act0, p, acc).0.len() >= acc.len(),
    decreases s.len() - p, g.len() - act_at(p0, p, act0).len(), e, 0int,
{
    assert(decreases_to!(e => e->Repeat_0));
    assert(decreases_to!(e->Repeat_0 => e->Repeat_0.rule));
    if let Ok((n, q)) = sem(g, s, *e->Repeat_0.rule, p, act_at(p0, p, act0)) {
        if p < q <= s.len() {
            lemma_star_bounds(g, s, e, p0, act0, q, acc.push(n));
        }
    }
}

pub proof fn lemma_upto_bounds(
    g: Seq<Expr>,
    s: Seq<char>,
    e: Expr,
    max: int,
    k: int,
    p0: int,
    act0: Set<int>,
    p: int,
    acc: Seq<NodeV>,
)
    requires
        0 <= k <= max,
        0 <= p0 <= p <= s.len(),
        act_ok(g.len() as int, act0),
        e is Repeat,
    ensures
        p <= sem_upto(g, s, e, max, k, p0, act0, p, acc).1 <= s.len(),
    decreases s.len() - p, g.len() - act_at(p0, p, act0).len(), e, max - k,
{
    if k < max {
        assert(decreases_to!(e => e->Repeat_0));
        assert(decreases_to!(e->Repeat_0 => e->Repeat_0.rule));
        if let Ok((n, q)) = sem(g, s, *e->Repeat_0.rule, p, act_at(p0, p, act0)) {
            if p <= q <= s.len() {
                lemma_upto_bounds(g, s, e, max, k + 1, p0, act0, q, acc.push(n));
            }
        }
    }
}

pub proof fn lemma_count_bounds(
    g: Seq<Expr>,
    s: Seq<char>,
    e: Expr,
    count: int,
    k: int,
    p0: int,
    act0: Set<int>,
    p: int,
    acc: Seq<NodeV>,
)
    requires
        0 <= k <= count,
        0 <= p0 <= p <= s.len(),
        act_ok(g.len() as int, act0),
        e is Repeat,
    ensures
        sem_count(g, s, e, count, k, p0, act0, p, acc) matches Ok((_, q)) ==> p <= q <= s.len(),
    decreases s.len() - p, g.len() - act_at(p0, p, act0).len(), e, count - k,
{
    if k < count {
        assert(decreases_to!(e => e->Repeat_0));
        assert(decreases_to!(e->Repeat_0 => e->Repeat_0.rule));
        if let Ok((n, q)) = sem(g, s, *e->Repeat_0.rule, p, act_at(p0, p, act0)) {
            if p <= q <= s.len() {
                lemma_count_bounds(g, s, e, count, k + 1, p0, act0, q, acc.push(n));
            }
        }
    }
}

pub proof fn lemma_join_bounds(g: Seq<Expr>, s: Seq<char>, e: Expr, p0: int, act0: Set<int>, p: int, acc: Seq<NodeV>)
    requires
        0 <= p0 <= p <= s.len(),
        act_ok(g.len() as int, act0),
        e is Joinable,
    ensures
        p <= sem_join(g, s, e, p0, act0, p, acc).1 <= s.len(),
    decreases s.len() - p, g.len() - act_at(p0, p, act0).len(), e, 0int,
{
    let j = e->Joinable_0;
    assert(decreases_to!(e => e->Joinable_0));
    assert(decreases_to!(e->Joinable_0 => e->Joinable_0.join));
    assert(decreases_to!(e->Joinable_0 => e->Joinable_0.rule));
    if let Ok((_, q1)) = sem(g, s, *j.join, p, act_at(p0, p, act0)) {
        if p <= q1 <= s.len() {
            if let Ok((n, q2)) = sem(g, s, *j.rule, q1, act_at(p0, q1, act0)) {
                if p < q2 <= s.len() {
                    lemma_join_bounds(g, s, e, p0, act0, q2, acc.push(n));
                }
            }
        }
    }
}

/// Ordered choice: when the first alternative matches, the choice yields it (tagged with
/// index 0) and advances exactly as far, whatever the later alternatives would do.
pub proof fn choice_takes_first_match(g: Seq<Expr>, s: Seq<char>, e: Expr, p: int, act: Set<int>)
    requires
        0 <= p <= s.len(),
        act_ok(g.len() as int, act),
        e is Choice,
        e->Choice_0.0.len() >= 1,
        sem(g, s, e->Choice_0.0[0], p, act) is Ok,
    ensures
        sem(g, s, e, p, act) == Ok::<(NodeV, int), ProductionError<ErrV>>((
            NodeV::Variant(0, Box::new(sem(g, s, e->Choice_0.0[0], p, act)->Ok_0.0)),
            sem(g, s, e->Choice_0.0[0], p, act)->Ok_0.1,
        )),
{
    assert(sem(g, s, e, p, act) == sem_choice(g, s, e, 0, p, act, Seq::empty()));
}

/// Sequence of two: on success it advances by the length of the first match plus that of the
/// second; a failure of either item fails the sequence with that item's index.
pub proof fn sequence_of_two(g: Seq<Expr>, s: Seq<char>, e: Expr, p: int, act: Set<int>)
    requires
        0 <= p <= s.len(),
        act_ok(g.len() as int, act),
        e is Sequence,
        e->Sequence_0.0.len() == 2,
    ensures
        match sem(g, s, e->Sequence_0.0[0], p, act) {
            Ok((a, q1)) => match sem(g, s, e->Sequence_0.0[1], q1, act_at(p, q1, act)) {
                Ok((b, q2)) => sem(g, s, e, p, act) == Ok::<(NodeV, int), ProductionError<ErrV>>((NodeV::Sequence(seq![a, b]), p + (q1 - p) + (q2 - q1))),
                Err(ProductionError::Token(x)) => sem(g, s, e, p, act) == Err::<(NodeV, int), ProductionError<ErrV>>(ProductionError::Token(ErrV::Sequence(1, Box::new(x)))),
                Err(ProductionError::EndStream) => sem(g, s, e, p, act) == Err::<(NodeV, int), ProductionError<ErrV>>(ProductionError::EndStream),
            },
            Err(ProductionError::Token(x)) => sem(g, s, e, p, act) == Err::<(NodeV, int), ProductionError<ErrV>>(ProductionError::Token(ErrV::Sequence(0, Box::new(x)))),
            Err(ProductionError::EndStream) => sem(g, s, e, p, act) == Err::<(NodeV, int), ProductionError<ErrV>>(ProductionError::EndStream),
        },
{
    let items = e->Sequence_0.0@;
    let s0 = sem_seq(g, s, e, 0, p, act, p, Seq::empty());
    assert(sem(g, s, e, p, act) == s0);
    lemma_sem_bounds(g, s, items[0], p, act);
    if let Ok((a, q1)) = sem(g, s, items[0], p, act) {
        lemma_sem_bounds(g, s, items[1], q1, act_at(p, q1, act));
        assert(s0 == sem_seq(g, s, e, 1, p, act, q1, seq![a]));
        if let Ok((b, q2)) = sem(g, s, items[1], q1, act_at(p, q1, act)) {
            assert(sem_seq(g, s, e, 1, p, act, q1, seq![a]) == sem_seq(g, s, e, 2, p, act, q2, seq![a].push(b)));
            assert(seq![a].push(b) =~= seq![a, b]);
        }
    }
}

/// The greedy loop of `R*` stops only where `R` fails or matches without consuming.
proof fn lemma_star_stops(g: Seq<Expr>, s: Seq<char>, e: Expr, p0: int, act0: Set<int>, p: int, acc: Seq<NodeV>)
    requires
        0 <= p0 <= p <= s.len(),
        act_ok(g.len() as int, act0),
        e is Repeat,
    ensures
        ({
            let q = sem_star(g, s, e, p0, act0, p, acc).1;
            match sem(g, s, *e->Repeat_0.rule, q, act_at(p0, q, act0)) {
                Ok((_, q2)) => q2 <= q || q2 > s.len(),
                Err(_) => true,
            }
        }),
    decreases s.len() - p, g.len() - act_at(p0, p, act0).len(), e, 0int,
{
    assert(decreases_to!(e => e->Repeat_0));
    assert(decreases_to!(e->Repeat_0 => e->Repeat_0.rule));
    if let Ok((n, q)) = sem(g, s, *e->Repeat_0.rule, p, act_at(p0, p, act0)) {
        if p < q <= s.len() {
            lemma_star_stops(g, s, e, p0, act0, q, acc.push(n));
        }
    }
}

/// Maximal munch: `R*` followed by `R` never matches, for a rule `R` that consumes input
/// whenever it matches.
pub proof fn repeat_then_same_never_matches(g: Seq<Expr>, s: Seq<char>, e: Expr, p: int, act: Set<int>)
    requires
        0 <= p <= s.len(),
        act_ok(g.len() as int, act),
        e is Sequence,
        e->Sequence_0.0.len() == 2,
        e->Sequence_0.0[0] is Repeat,
        e->Sequence_0.0[0]->Repeat_0.marker is Repeat,
        *e->Sequence_0.0[0]->Repeat_0.rule == e->Sequence_0.0[1],
        forall|q: int|
            p <= q <= s.len() ==> (#[trigger] sem(g, s, e->Sequence_0.0[1], q, act_at(p, q, act)) matches Ok((_, q2)) ==> q2 > q),
    ensures
        sem(g, s, e, p, act) is Err,
{
    let items = e->Sequence_0.0@;
    let star = items[0];
    let r = items[1];
    lemma_star_bounds(g, s, star, p, act, p, Seq::empty());
    lemma_star_stops(g, s, star, p, act, p, Seq::empty());
    let (list, q) = sem_star(g, s, star, p, act, p, Seq::empty());
    assert(sem(g, s, star, p, act) == Ok::<(NodeV, int), ProductionError<ErrV>>((NodeV::List(list), q)));
    lemma_sem_bounds(g, s, r, q, act_at(p, q, act));
    assert(sem(g, s, r, q, act_at(p, q, act)) is Err);
    assert(sem(g, s, e, p, act) == sem_seq(g, s, e, 0, p, act, p, Seq::empty()));
    assert(sem_seq(g, s, e, 0, p, act, p, Seq::empty()) == sem_seq(g, s, e, 1, p, act, q, seq![NodeV::List(list)]));
}

/// Strict maximum: when `R{n,m}` has taken `m` items and one more `R` follows, it fails with
/// `MoreThanMax(m)` (for `n <= m`).
pub proof fn min_max_rejects_one_more(g: Seq<Expr>, s: Seq<char>, e: Expr, p: int, act: Set<int>)
    requires
        0 <= p <= s.len(),
        act_ok(g.len() as int, act),
        e is Repeat,
        e->Repeat_0.marker is MinMax,
        e->Repeat_0.marker->MinMax_0.min <= e->Repeat_0.marker->MinMax_0.max,
        ({
            let m = e->Repeat_0.marker->MinMax_0.max as int;
            let (items, q) = sem_upto(g, s, e, m, 0, p, act, p, Seq::empty());
            items.len() == m && sem(g, s, *e->Repeat_0.rule, q, act_at(p, q, act)) is Ok
        }),
    ensures
        sem(g, s, e, p, act) == Err::<(NodeV, int), ProductionError<ErrV>>(
            ProductionError::Token(ErrV::MinMaxMore(e->Repeat_0.marker->MinMax_0.max as int)),
        ),
{
    let m = e->Repeat_0.marker->MinMax_0.max as int;
    lemma_upto_bounds(g, s, e, m, 0, p, act, p, Seq::empty());
}

/// A negative lookahead never moves the cursor.
pub proof fn negative_lookahead_stays(g: Seq<Expr>, s: Seq<char>, e: Expr, p: int, act: Set<int>)
    requires
        0 <= p <= s.len(),
        act_ok(g.len() as int, act),
        e is NegativeLookahead,
    ensures
        sem(g, s, e, p, act) matches Ok((n, q)) ==> q == p && n == NodeV::Unit,
{
}

/// An optional rule never fails.
pub proof fn optional_never_fails(g: Seq<Expr>, s: Seq<char>, e: Expr, p: int, act: Set<int>)
    requires
        0 <= p <= s.len(),
        act_ok(g.len() as int, act),
        e is Optional,
    ensures
        sem(g, s, e, p, act) is Ok,
{
}

/// A regex terminal matches only at the cursor and always consumes: its match is the text
/// the engine found at offset 0 of what follows the cursor, and it is not empty.
pub proof fn regex_terminal_anchored(g: Seq<Expr>, s: Seq<char>, e: Expr, p: int, act: Set<int>)
    requires
        0 <= p <= s.len(),
        act_ok(g.len() as int, act),
        e is Token,
        e->Token_0 is RegExpr,
    ensures
        sem(g, s, e, p, act) matches Ok((n, q)) ==> {
            &&& p < q <= s.len()
            &&& n == NodeV::Text(p, q)
            &&& regex_find(e->Token_0->RegExpr_0.0.pattern(), s.subrange(p, s.len() as int))
                == Some(Some((0int, s.subrange(p, q))))
        },
{
    let rest = s.subrange(p, s.len() as int);
    if let Some(Some(m)) = regex_find(e->Token_0->RegExpr_0.0.pattern(), rest) {
        if m.0 == 0 && 0 < m.1.len() <= rest.len() && rest.subrange(0, m.1.len() as int) == m.1 {
            assert(rest.subrange(0, m.1.len() as int) =~= s.subrange(p, p + m.1.len()));
        }
    }
}

/// A memo hit gives what running the rule again would: every entry that a cached stream
/// holds for a named rule at a position is the outcome of that rule there.
pub proof fn packrat_memo_is_exact(it: CachedIter)
    requires
        it.wf(),
    ensures
        forall|k: usize| #[trigger] it.memo().keys().contains(k) ==> it.memo().stride() > 0
            && it.memo().entry(k) == apply(
                it.grammar(),
                it.stream().text(),
                Expr::Ref((k as nat % it.memo().stride()) as usize),
                (k as nat / it.memo().stride()) as int,
            ),
{
    it.lemma_memo();
    it.memo().lemma_entries(it.grammar().rules@, it.stream().text());
}

/// Packrat memoization is invisible: a second cached application of a rule at the same
/// cursor, on the same grammar and text, gives the same result and the same cursor as the
/// first, whatever the first added to the memo.
pub proof fn packrat_repeats_itself(first: CachedIter, second: CachedIter, rule: Expr)
    requires
        second.grammar() == first.grammar(),
        second.stream().text() == first.stream().text(),
        second.stream().pos() == first.stream().pos(),
    ensures
        apply(second.grammar(), second.stream().text(), rule, second.stream().pos()) == apply(
            first.grammar(),
            first.stream().text(),
            rule,
            first.stream().pos(),
        ),
{
}

} // verus!
