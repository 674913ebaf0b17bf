use crate::node::{
    copy_node, copy_production_error, error_views, lemma_error_views_push, lemma_view_error_choice,
    lemma_view_error_sequence, lemma_view_list, lemma_view_maybe, lemma_view_sequence,
    lemma_view_variant, lemma_views_push, views, ChoiceError, CountMismatch, ErrV, LessThanMin,
    LookaheadMatched, MinMaxRepeatError, MoreThanMax, Node, NodeV, RuleError, SeqOutput,
};
use crate::production::ProductionError;
use crate::rules::{
    act_at, act_ok, lemma_act_insert, sem, sem_choice, sem_count, sem_join, sem_seq, sem_star,
    sem_token, sem_upto, width, Expr, Outcome, RepeatMarker, TokenRule,
};
use crate::terminal::{match_regex, match_substr};
use std::collections::HashMap;
use vstd::prelude::*;
use vstd::string::StrSliceExecFns;

verus! {

broadcast use vstd::std_specs::vec::group_vec_axioms, vstd::std_specs::hash::group_hash_axioms;

/// The outcome that an exec result stands for.
pub open spec fn outcome(r: Result<Node, ProductionError<RuleError>>, end: usize) -> Outcome {
    match r {
        Ok(n) => Ok((n@, end as int)),
        Err(e) => Err(e@),
    }
}

/// The memo key of rule `id` at position `p`, `stride` being the number of rules.
pub open spec fn memo_key(p: usize, stride: nat, id: usize) -> usize {
    (p * stride + id) as usize
}

/// The named rules that a list of rule indices holds.
pub open spec fn active_set(v: Seq<usize>) -> Set<int> {
    Set::new(|i: int| exists|j: int| 0 <= j < v.len() && v[j] as int == i)
}

/// A memoized application of a named rule.
#[derive(Debug)]
pub struct CacheEntry {
    result: Result<Node, ProductionError<RuleError>>,
    end: usize,
}

/// The packrat memo: for each named rule tried at a position, what it gave there. The key
/// of rule `id` at position `p` is `p * stride + id`, `stride` being the number of rules.
#[derive(Debug)]
pub struct PackratCache {
    map: HashMap<usize, CacheEntry>,
    stride: usize,
}

impl PackratCache {
    /// Every entry is what its rule gives at its position, entered afresh there.
    pub closed spec fn wf(&self, g: Seq<Expr>, s: Seq<char>) -> bool {
        &&& self.stride == g.len()
        &&& (s.len() + 1) * self.stride <= usize::MAX
        &&& forall|k: usize| #[trigger] self.map@.contains_key(k) ==> {
            &&& self.stride > 0
            &&& k / self.stride <= s.len()
            &&& outcome(self.map@[k].result, self.map@[k].end) == sem(
                g,
                s,
                Expr::Ref((k % self.stride) as usize),
                (k / self.stride) as int,
                Set::empty(),
            )
            &&& self.map@[k].result is Ok ==> k / self.stride <= self.map@[k].end <= s.len()
        }
    }

    /// The outcome memoized under key `k`.
    pub closed spec fn entry(&self, k: usize) -> Outcome {
        outcome(self.map@[k].result, self.map@[k].end)
    }

    /// Every entry is the outcome of its rule at its position, entered afresh there.
    pub proof fn lemma_entries(&self, g: Seq<Expr>, s: Seq<char>)
        requires
            self.wf(g, s),
        ensures
            forall|k: usize| #[trigger] self.keys().contains(k) ==> self.stride() > 0 && self.entry(k) == sem(
                g,
                s,
                Expr::Ref((k as nat % self.stride()) as usize),
                (k as nat / self.stride()) as int,
                Set::empty(),
            ),
    {
    }

    pub closed spec fn keys(&self) -> Set<usize> {
        self.map@.dom()
    }

    pub closed spec fn stride(&self) -> nat {
        self.stride as nat
    }

    pub proof fn lemma_stride(&self, g: Seq<Expr>, s: Seq<char>)
        requires
            self.wf(g, s),
        ensures
            self.stride() == g.len(),
            (s.len() + 1) * self.stride() <= usize::MAX,
    {
    }

    /// An empty memo for a grammar of `rules` rules over an input of `len` characters.
    pub fn new(rules: usize, len: usize) -> (r: Self)
        requires
            (len + 1) * rules <= usize::MAX,
        ensures
            r.stride() == rules,
            r.keys().is_empty(),
            forall|g: Seq<Expr>, s: Seq<char>| g.len() == rules && s.len() == len ==> r.wf(g, s),
    {
        PackratCache { map: HashMap::new(), stride: rules }
    }

    /// Whether the rule of index `id` has been tried at position `p`.
    pub fn is_cached(&self, p: usize, id: usize) -> (r: bool)
        requires
            id < self.stride(),
            (p + 1) * self.stride() <= usize::MAX,
        ensures
            r == self.keys().contains((p * self.stride() + id) as usize),
    {
        assert(p * self.stride + id < (p + 1) * self.stride) by (nonlinear_arith)
            requires id < self.stride;
        self.map.contains_key(&(p * self.stride + id))
    }

    /// The number of memoized applications.
    pub fn len(&self) -> (r: usize)
        ensures
            r == self.keys().len(),
    {
        self.map.len()
    }
}

proof fn lemma_key(p: int, stride: int, id: int)
    requires
        0 <= p,
        0 <= id < stride,
    ensures
        (p * stride + id) / stride == p,
        (p * stride + id) % stride == id,
{
    vstd::arithmetic::div_mod::lemma_fundamental_div_mod_converse(p * stride + id, stride, p, id);
}

proof fn lemma_active_empty()
    ensures
        active_set(Seq::<usize>::empty()) == Set::<int>::empty(),
{
    assert(active_set(Seq::<usize>::empty()) =~= Set::<int>::empty());
}

proof fn lemma_active_push(v: Seq<usize>, id: usize)
    ensures
        active_set(v.push(id)) == active_set(v).insert(id as int),
{
    let w = v.push(id);
    assert forall|i: int| active_set(w).contains(i) <==> active_set(v).insert(id as int).contains(i) by {
        if active_set(v).contains(i) {
            let j = choose|j: int| 0 <= j < v.len() && v[j] as int == i;
            assert(w[j] == v[j]);
        }
        if i == id as int {
            assert(w[v.len() as int] == id);
        }
        if active_set(w).contains(i) {
            let j = choose|j: int| 0 <= j < w.len() && w[j] as int == i;
            if j < v.len() {
                assert(w[j] == v[j]);
            }
        }
    }
    assert(active_set(w) =~= active_set(v).insert(id as int));
}

/// Whether `id` is in `active`.
fn holds(active: &Vec<usize>, id: usize) -> (r: bool)
    ensures
        r == active_set(active@).contains(id as int),
{
    let mut i: usize = 0;
    while i < active.len()
        invariant
            i <= active.len(),
            forall|j: int| 0 <= j < i ==> active@[j] != id,
        decreases active.len() - i,
    {
        if active[i] == id {
            return true;
        }
        i += 1;
    }
    false
}

/// `active` with `id` added.
fn with_rule(active: &Vec<usize>, id: usize) -> (r: Vec<usize>)
    ensures
        r@ == active@.push(id),
{
    let mut r: Vec<usize> = Vec::new();
    let mut i: usize = 0;
    while i < active.len()
        invariant
            i <= active.len(),
            r@ == active@.subrange(0, i as int),
        decreases active.len() - i,
    {
        r.push(active[i]);
        i += 1;
        assert(r@ =~= active@.subrange(0, i as int));
    }
    r.push(id);
    assert(r@ =~= active@.push(id));
    r
}

/// Applies rule `e` of grammar `g` at position `p` of the input `s` (`src` holds the same
/// characters), with the named rules `active` entered at `p`, reading and filling `cache`.
pub(crate) fn transfer(
    g: &Vec<Expr>,
    src: &String,
    s: &Vec<char>,
    e: &Expr,
    p: usize,
    active: &Vec<usize>,
    Ghost(act): Ghost<Set<int>>,
    cache: &mut PackratCache,
) -> (r: (Result<Node, ProductionError<RuleError>>, usize))
    requires
        src@ == s@,
        p <= s.len(),
        act_ok(g.len() as int, act),
        active_set(active@) == act,
        old(cache).wf(g@, s@),
    ensures
        outcome(r.0, r.1) == sem(g@, s@, *e, p as int, act),
        r.0 is Ok ==> p <= r.1 <= s.len(),
        final(cache).wf(g@, s@),
        old(cache).keys().subset_of(final(cache).keys()),
        *e is Ref && act.is_empty() && e->Ref_0 < g.len() && old(cache).keys().contains(memo_key(p, old(cache).stride(), e->Ref_0))
            ==> *final(cache) == *old(cache),
        *e is Ref && act.is_empty() && e->Ref_0 < g.len() ==> final(cache).keys().contains(memo_key(p, old(cache).stride(), e->Ref_0)),
    decreases s@.len() - p, g@.len() - act.len(), *e, width(*e) + 1,
{
    let ghost gs = g@;
    let ghost ss = s@;
    let empty: Vec<usize> = Vec::new();
    proof {
        lemma_active_empty();
        assert(empty@ =~= Seq::<usize>::empty());
    }
    match e {
        Expr::Token(t) => {
            if p >= s.len() {
                return (Err(ProductionError::EndStream), p);
            }
            match t {
                TokenRule::SubStr(lit) => {
                    if match_substr(s, p, &lit.0) {
                        let q = p + lit.0.len();
                        (Ok(Node::Text(p, q)), q)
                    } else {
                        (Err(ProductionError::Token(RuleError::Span(p, p + 1))), p)
                    }
                },
                TokenRule::RegExpr(re) => {
                    let rest = src.as_str().substring_char(p, s.len());
                    match match_regex(&re.0, rest) {
                        None => (Err(ProductionError::Token(RuleError::RegexRuntime)), p),
                        Some(n) => {
                            if n > 0 {
                                (Ok(Node::Text(p, p + n)), p + n)
                            } else {
                                (Err(ProductionError::Token(RuleError::Span(p, p + 1))), p)
                            }
                        },
                    }
                },
            }
        },
        Expr::Sequence(rule) => {
            let items = &rule.0;
            let mut out: Vec<Node> = Vec::new();
            let mut k: usize = 0;
            let mut q: usize = p;
            assert(views(out@) =~= Seq::<NodeV>::empty());
            while k < items.len()
                invariant
                    k <= items.len(),
                    p <= q <= s.len(),
                    *e is Sequence,
                    e->Sequence_0.0 == *items,
                    items.len() == width(*e),
                    src@ == s@,
                    act_ok(g.len() as int, act),
                    active_set(active@) == act,
                    active_set(empty@) == Set::<int>::empty(),
                    cache.wf(g@, s@),
                    old(cache).keys().subset_of(cache.keys()),
                    sem(g@, s@, *e, p as int, act) == sem_seq(g@, s@, *e, k as int, p as int, act, q as int, views(out@)),
                decreases items.len() - k,
            {
                let cur = if q == p { active } else { &empty };
                proof {
                    assert(decreases_to!(*e => e->Sequence_0));
                    assert(decreases_to!(e->Sequence_0 => e->Sequence_0.0));
                    assert(decreases_to!(*items => items[k as int]));
                }
                let (res, q2) = transfer(g, src, s, &items[k], q, cur, Ghost(act_at(p as int, q as int, act)), cache);
                match res {
                    Err(ProductionError::Token(x)) => {
                        proof {
                            lemma_view_error_sequence(k, x);
                        }
                        return (Err(ProductionError::Token(RuleError::Sequence(k, Box::new(x)))), p);
                    },
                    Err(ProductionError::EndStream) => {
                        return (Err(ProductionError::EndStream), p);
                    },
                    Ok(n) => {
                        proof {
                            lemma_views_push(out@, n);
                        }
                        out.push(n);
                        q = q2;
                        k += 1;
                    },
                }
            }
            proof {
                lemma_view_sequence(out);
            }
            (Ok(Node::Sequence(SeqOutput(out))), q)
        },
        Expr::Choice(rule) => {
            let alts = &rule.0;
            let mut errs: Vec<ProductionError<RuleError>> = Vec::new();
            let mut k: usize = 0;
            assert(error_views(errs@) =~= Seq::<ProductionError<ErrV>>::empty());
            while k < alts.len()
                invariant
                    k <= alts.len(),
                    *e is Choice,
                    e->Choice_0.0 == *alts,
                    alts.len() == width(*e),
                    src@ == s@,
                    p <= s.len(),
                    act_ok(g.len() as int, act),
                    active_set(active@) == act,
                    cache.wf(g@, s@),
                    old(cache).keys().subset_of(cache.keys()),
                    sem(g@, s@, *e, p as int, act) == sem_choice(g@, s@, *e, k as int, p as int, act, error_views(errs@)),
                decreases alts.len() - k,
            {
                proof {
                    assert(decreases_to!(*e => e->Choice_0));
                    assert(decreases_to!(e->Choice_0 => e->Choice_0.0));
                    assert(decreases_to!(*alts => alts[k as int]));
                }
                let (res, q) = transfer(g, src, s, &alts[k], p, active, Ghost(act), cache);
                match res {
                    Ok(n) => {
                        proof {
                            lemma_view_variant(k, n);
                        }
                        return (Ok(Node::Variant(k, Box::new(n))), q);
                    },
                    Err(x) => {
                        proof {
                            lemma_error_views_push(errs@, x);
                        }
                        errs.push(x);
                        k += 1;
                    },
                }
            }
            proof {
                lemma_view_error_choice(errs);
            }
            (Err(ProductionError::Token(RuleError::Choice(ChoiceError(errs)))), p)
        },
        Expr::Optional(x) => {
            let (res, q) = transfer(g, src, s, x, p, active, Ghost(act), cache);
            match res {
                Ok(n) => {
                    proof {
                        lemma_view_maybe(n);
                    }
                    (Ok(Node::Maybe(Some(Box::new(n)))), q)
                },
                Err(_) => (Ok(Node::Maybe(None)), p),
            }
        },
        Expr::PositiveLookahead(x) => {
            let (res, _q) = transfer(g, src, s, x, p, active, Ghost(act), cache);
            match res {
                Ok(n) => {
                    proof {
                        lemma_view_maybe(n);
                    }
                    (Ok(Node::Maybe(Some(Box::new(n)))), p)
                },
                Err(ProductionError::EndStream) => (Err(ProductionError::EndStream), p),
                Err(_) => (Ok(Node::Maybe(None)), p),
            }
        },
        Expr::NegativeLookahead(x) => {
            let (res, _q) = transfer(g, src, s, x, p, active, Ghost(act), cache);
            match res {
                Ok(_) => (Err(ProductionError::Token(RuleError::LookaheadMatched(LookaheadMatched))), p),
                Err(_) => (Ok(Node::Unit), p),
            }
        },
        Expr::Repeat(rule) => {
            let inner: &Expr = &rule.rule;
            proof {
                assert(decreases_to!(*e => e->Repeat_0));
                assert(decreases_to!(e->Repeat_0 => e->Repeat_0.rule));
            }
            match rule.marker {
                RepeatMarker::Repeat(_) | RepeatMarker::Min(_) => {
                    let mut out: Vec<Node> = Vec::new();
                    let mut q: usize = p;
                    assert(views(out@) =~= Seq::<NodeV>::empty());
                    loop
                        invariant
                            p <= q <= s.len(),
                            *e is Repeat,
                            *e->Repeat_0.rule == *inner,
                            src@ == s@,
                            act_ok(g.len() as int, act),
                            active_set(active@) == act,
                            active_set(empty@) == Set::<int>::empty(),
                            cache.wf(g@, s@),
                            old(cache).keys().subset_of(cache.keys()),
                            sem_star(g@, s@, *e, p as int, act, p as int, Seq::empty()) == sem_star(g@, s@, *e, p as int, act, q as int, views(out@)),
                        ensures
                            p <= q <= s.len(),
                            cache.wf(g@, s@),
                            old(cache).keys().subset_of(cache.keys()),
                            sem_star(g@, s@, *e, p as int, act, p as int, Seq::empty()) == (views(out@), q as int),
                        decreases s.len() - q,
                    {
                        let cur = if q == p { active } else { &empty };
                        let (res, q2) = transfer(g, src, s, inner, q, cur, Ghost(act_at(p as int, q as int, act)), cache);
                        match res {
                            Ok(n) => {
                                if q < q2 {
                                    proof {
                                        lemma_views_push(out@, n);
                                    }
                                    out.push(n);
                                    q = q2;
                                } else {
                                    break;
                                }
                            },
                            Err(_) => {
                                break;
                            },
                        }
                    }
                    proof {
                        lemma_view_list(out);
                    }
                    match rule.marker {
                        RepeatMarker::Min(m) => {
                            if out.len() >= m.min {
                                (Ok(Node::List(out)), q)
                            } else {
                                (Err(ProductionError::Token(RuleError::LessThanMin(LessThanMin(m.min)))), p)
                            }
                        },
                        _ => (Ok(Node::List(out)), q),
                    }
                },
                RepeatMarker::Max(_) | RepeatMarker::MinMax(_) => {
                    let (min, max) = match rule.marker {
                        RepeatMarker::MinMax(m) => (m.min, m.max),
                        RepeatMarker::Max(m) => (0, m.max),
                        _ => (0, 0),
                    };
                    let mut out: Vec<Node> = Vec::new();
                    let mut q: usize = p;
                    let mut k: usize = 0;
                    assert(views(out@) =~= Seq::<NodeV>::empty());
                    loop
                        invariant
                            k <= max,
                            out.len() == k,
                            max == width(*e),
                            p <= q <= s.len(),
                            *e is Repeat,
                            *e->Repeat_0.rule == *inner,
                            src@ == s@,
                            act_ok(g.len() as int, act),
                            active_set(active@) == act,
                            active_set(empty@) == Set::<int>::empty(),
                            cache.wf(g@, s@),
                            old(cache).keys().subset_of(cache.keys()),
                            sem_upto(g@, s@, *e, max as int, 0, p as int, act, p as int, Seq::empty()) == sem_upto(g@, s@, *e, max as int, k as int, p as int, act, q as int, views(out@)),
                        ensures
                            p <= q <= s.len(),
                            out.len() <= max,
                            cache.wf(g@, s@),
                            old(cache).keys().subset_of(cache.keys()),
                            sem_upto(g@, s@, *e, max as int, 0, p as int, act, p as int, Seq::empty()) == (views(out@), q as int),
                        decreases max - k,
                    {
                        if k >= max {
                            break;
                        }
                        let cur = if q == p { active } else { &empty };
                        let (res, q2) = transfer(g, src, s, inner, q, cur, Ghost(act_at(p as int, q as int, act)), cache);
                        match res {
                            Ok(n) => {
                                proof {
                                    lemma_views_push(out@, n);
                                }
                                out.push(n);
                                q = q2;
                                k += 1;
                            },
                            Err(_) => {
                                break;
                            },
                        }
                    }
                    proof {
                        lemma_view_list(out);
                    }
                    if out.len() < min {
                        return (Err(ProductionError::Token(RuleError::MinMax(MinMaxRepeatError::LessThanMin(min)))), p);
                    }
                    if out.len() == max {
                        let cur = if q == p { active } else { &empty };
                        let (extra, _q3) = transfer(g, src, s, inner, q, cur, Ghost(act_at(p as int, q as int, act)), cache);
                        if extra.is_ok() {
                            let err = match rule.marker {
                                RepeatMarker::MinMax(_) => RuleError::MinMax(MinMaxRepeatError::MoreThanMax(max)),
                                _ => RuleError::MoreThanMax(MoreThanMax(max)),
                            };
                            return (Err(ProductionError::Token(err)), p);
                        }
                    }
                    (Ok(Node::List(out)), q)
                },
                RepeatMarker::Count(c) => {
                    let count = c.count;
                    let mut out: Vec<Node> = Vec::new();
                    let mut q: usize = p;
                    let mut k: usize = 0;
                    assert(views(out@) =~= Seq::<NodeV>::empty());
                    loop
                        invariant
                            k <= count,
                            out.len() == k,
                            count == width(*e),
                            e->Repeat_0.marker is Count,
                            e->Repeat_0.marker->Count_0.count == count,
                            p <= q <= s.len(),
                            *e is Repeat,
                            *e->Repeat_0.rule == *inner,
                            src@ == s@,
                            act_ok(g.len() as int, act),
                            active_set(active@) == act,
                            active_set(empty@) == Set::<int>::empty(),
                            cache.wf(g@, s@),
                            old(cache).keys().subset_of(cache.keys()),
                            sem_count(g@, s@, *e, count as int, 0, p as int, act, p as int, Seq::empty()) == sem_count(g@, s@, *e, count as int, k as int, p as int, act, q as int, views(out@)),
                        ensures
                            p <= q <= s.len(),
                            cache.wf(g@, s@),
                            old(cache).keys().subset_of(cache.keys()),
                            sem_count(g@, s@, *e, count as int, 0, p as int, act, p as int, Seq::empty()) == Ok::<(Seq<NodeV>, int), ProductionError<ErrV>>((views(out@), q as int)),
                        decreases count - k,
                    {
                        if k >= count {
                            break;
                        }
                        let cur = if q == p { active } else { &empty };
                        let (res, q2) = transfer(g, src, s, inner, q, cur, Ghost(act_at(p as int, q as int, act)), cache);
                        match res {
                            Ok(n) => {
                                proof {
                                    lemma_views_push(out@, n);
                                }
                                out.push(n);
                                q = q2;
                                k += 1;
                            },
                            Err(ProductionError::EndStream) => {
                                return (Err(ProductionError::EndStream), p);
                            },
                            Err(ProductionError::Token(_)) => {
                                break;
                            },
                        }
                    }
                    proof {
                        lemma_view_list(out);
                    }
                    if out.len() == count {
                        (Ok(Node::List(out)), q)
                    } else {
                        (Err(ProductionError::Token(RuleError::CountMismatch(CountMismatch(count)))), p)
                    }
                },
            }
        },
        Expr::Joinable(j) => {
            let item: &Expr = &j.rule;
            let join: &Expr = &j.join;
            proof {
                assert(decreases_to!(*e => e->Joinable_0));
                assert(decreases_to!(e->Joinable_0 => e->Joinable_0.rule));
                assert(decreases_to!(e->Joinable_0 => e->Joinable_0.join));
            }
            let (first, q1) = transfer(g, src, s, item, p, active, Ghost(act), cache);
            match first {
                Err(_) => {
                    if 0 < j.min {
                        (Err(ProductionError::Token(RuleError::LessThanMin(LessThanMin(j.min)))), p)
                    } else {
                        let none: Vec<Node> = Vec::new();
                        proof {
                            lemma_view_list(none);
                            assert(views(none@) =~= Seq::<NodeV>::empty());
                        }
                        (Ok(Node::List(none)), p)
                    }
                },
                Ok(n0) => {
                    let mut out: Vec<Node> = Vec::new();
                    proof {
                        lemma_views_push(out@, n0);
                        assert(views(Seq::<Node>::empty()) =~= Seq::<NodeV>::empty());
                    }
                    out.push(n0);
                    let mut q: usize = q1;
                    loop
                        invariant
                            p <= q <= s.len(),
                            *e is Joinable,
                            *e->Joinable_0.rule == *item,
                            *e->Joinable_0.join == *join,
                            src@ == s@,
                            act_ok(g.len() as int, act),
                            active_set(active@) == act,
                            active_set(empty@) == Set::<int>::empty(),
                            cache.wf(g@, s@),
                            old(cache).keys().subset_of(cache.keys()),
                            sem_join(g@, s@, *e, p as int, act, q1 as int, seq![n0@]) == sem_join(g@, s@, *e, p as int, act, q as int, views(out@)),
                        ensures
                            p <= q <= s.len(),
                            cache.wf(g@, s@),
                            old(cache).keys().subset_of(cache.keys()),
                            sem_join(g@, s@, *e, p as int, act, q1 as int, seq![n0@]) == (views(out@), q as int),
                        decreases s.len() - q,
                    {
                        let cur = if q == p { active } else { &empty };
                        let (sep, r1) = transfer(g, src, s, join, q, cur, Ghost(act_at(p as int, q as int, act)), cache);
                        if sep.is_err() {
                            break;
                        }
                        let cur2 = if r1 == p { active } else { &empty };
                        let (res, r2) = transfer(g, src, s, item, r1, cur2, Ghost(act_at(p as int, r1 as int, act)), cache);
                        match res {
                            Ok(n) => {
                                if q < r2 {
                                    proof {
                                        lemma_views_push(out@, n);
                                    }
                                    out.push(n);
                                    q = r2;
                                } else {
                                    break;
                                }
                            },
                            Err(_) => {
                                break;
                            },
                        }
                    }
                    proof {
                        lemma_view_list(out);
                    }
                    if out.len() < j.min {
                        (Err(ProductionError::Token(RuleError::LessThanMin(LessThanMin(j.min)))), p)
                    } else {
                        (Ok(Node::List(out)), q)
                    }
                },
            }
        },
        Expr::Wrap(a, b, c) => {
            let (ra, q1) = transfer(g, src, s, a, p, active, Ghost(act), cache);
            match ra {
                Err(ProductionError::Token(x)) => {
                    proof {
                        lemma_view_error_sequence(0, x);
                    }
                    return (Err(ProductionError::Token(RuleError::Sequence(0, Box::new(x)))), p);
                },
                Err(ProductionError::EndStream) => {
                    return (Err(ProductionError::EndStream), p);
                },
                Ok(_) => {},
            }
            let cur1 = if q1 == p { active } else { &empty };
            let (rb, q2) = transfer(g, src, s, b, q1, cur1, Ghost(act_at(p as int, q1 as int, act)), cache);
            let body = match rb {
                Err(ProductionError::Token(x)) => {
                    proof {
                        lemma_view_error_sequence(1, x);
                    }
                    return (Err(ProductionError::Token(RuleError::Sequence(1, Box::new(x)))), p);
                },
                Err(ProductionError::EndStream) => {
                    return (Err(ProductionError::EndStream), p);
                },
                Ok(n) => n,
            };
            let cur2 = if q2 == p { active } else { &empty };
            let (rc, q3) = transfer(g, src, s, c, q2, cur2, Ghost(act_at(p as int, q2 as int, act)), cache);
            match rc {
                Err(ProductionError::Token(x)) => {
                    proof {
                        lemma_view_error_sequence(2, x);
                    }
                    (Err(ProductionError::Token(RuleError::Sequence(2, Box::new(x)))), p)
                },
                Err(ProductionError::EndStream) => (Err(ProductionError::EndStream), p),
                Ok(_) => (Ok(body), q3),
            }
        },
        Expr::Unit(x) => {
            let (res, q) = transfer(g, src, s, x, p, active, Ghost(act), cache);
            match res {
                Ok(_) => (Ok(Node::Unit), q),
                Err(x) => (Err(x), p),
            }
        },
        Expr::Ref(id) => {
            let id = *id;
            if id >= g.len() {
                return (Err(ProductionError::Token(RuleError::UnknownRule(id))), p);
            }
            if holds(active, id) {
                assert(act.contains(id as int));
                assert(!act.is_empty());
                return (Err(ProductionError::Token(RuleError::LeftRecursion(id))), p);
            }
            proof {
                lemma_act_insert(g.len() as int, act, id as int);
            }
            if active.len() == 0 {
                assert(act =~= Set::<int>::empty());
                assert(act.is_empty());
                let stride = cache.stride;
                proof {
                    lemma_key(p as int, stride as int, id as int);
                    assert(p * stride + id < (p + 1) * stride) by (nonlinear_arith)
                        requires id < stride;
                    assert((p + 1) * stride <= (s.len() + 1) * stride) by (nonlinear_arith)
                        requires p <= s.len();
                }
                let key = p * stride + id;
                match cache.map.get(&key) {
                    Some(entry) => {
                        let result = match &entry.result {
                            Ok(n) => Ok(copy_node(n)),
                            Err(x) => Err(copy_production_error(x)),
                        };
                        return (result, entry.end);
                    },
                    None => {},
                }
                let single = with_rule(&empty, id);
                proof {
                    lemma_active_push(empty@, id);
                }
                let (res, q) = transfer(g, src, s, &g[id], p, &single, Ghost(act.insert(id as int)), cache);
                let stored = match &res {
                    Ok(n) => Ok(copy_node(n)),
                    Err(x) => Err(copy_production_error(x)),
                };
                cache.map.insert(key, CacheEntry { result: stored, end: q });
                (res, q)
            } else {
                assert(act.contains(active@[0] as int));
                assert(!act.is_empty());
                let next = with_rule(active, id);
                proof {
                    lemma_active_push(active@, id);
                }
                transfer(g, src, s, &g[id], p, &next, Ghost(act.insert(id as int)), cache)
            }
        },
    }
}

} // verus!
