use crate::production::ProductionError;
use vstd::prelude::*;

verus! {

broadcast use vstd::std_specs::vec::group_vec_axioms;



/// Outputs of a sequence, one per item, in order.
#[derive(Debug)]
pub struct SeqOutput(pub Vec<Node>);

/// The parse tree a rule yields.
#[derive(Debug)]
pub enum Node {
    /// A terminal's match: the characters `[start, end)` of the input.
    Text(usize, usize),
    /// The output of a negative lookahead.
    Unit,
    /// A sequence's outputs.
    Sequence(SeqOutput),
    /// The alternative of a choice that matched, by its index, with its output.
    Variant(usize, Box<Node>),
    /// An optional rule or a positive lookahead.
    Maybe(Option<Box<Node>>),
    /// A repetition or a joined repetition.
    List(Vec<Node>),
}

/// Mathematical model of a parse tree.
pub enum NodeV {
    Text(int, int),
    Unit,
    Sequence(Seq<NodeV>),
    Variant(int, Box<NodeV>),
    Maybe(Option<Box<NodeV>>),
    List(Seq<NodeV>),
}

/// Number of subtrees directly below `n`.
pub open spec fn child_count(n: Node) -> nat {
    match n {
        Node::Sequence(o) => o.0.len() as nat,
        Node::Variant(_, _) => 1,
        Node::Maybe(Some(_)) => 1,
        Node::List(v) => v.len() as nat,
        _ => 0,
    }
}

/// The subtree of `n` at index `i`.
pub open spec fn child(n: Node, i: int) -> Node {
    match n {
        Node::Sequence(o) => o.0[i],
        Node::Variant(_, b) => *b,
        Node::Maybe(Some(b)) => *b,
        Node::List(v) => v[i],
        _ => n,
    }
}

impl View for Node {
    type V = NodeV;

    open spec fn view(&self) -> NodeV
        decreases self,
    {
        let kids = Seq::new(
            child_count(*self),
            |i: int| if 0 <= i < child_count(*self) { child(*self, i).view() } else { NodeV::Unit },
        );
        match self {
            Node::Text(a, b) => NodeV::Text(*a as int, *b as int),
            Node::Unit => NodeV::Unit,
            Node::Sequence(_) => NodeV::Sequence(kids),
            Node::Variant(i, _) => NodeV::Variant(*i as int, Box::new(kids[0])),
            Node::Maybe(Some(_)) => NodeV::Maybe(Some(Box::new(kids[0]))),
            Node::Maybe(None) => NodeV::Maybe(None),
            Node::List(_) => NodeV::List(kids),
        }
    }
}

/// A negative lookahead saw its target.
#[derive(Debug, PartialEq, Eq, Structural, Clone, Copy)]
pub struct LookaheadMatched;

/// A repetition matched fewer items than its minimum (the field).
#[derive(Debug, PartialEq, Eq, Structural, Clone, Copy)]
pub struct LessThanMin(pub usize);

/// A repetition matched more items than its maximum (the field).
#[derive(Debug, PartialEq, Eq, Structural, Clone, Copy)]
pub struct MoreThanMax(pub usize);

/// An exact repetition matched another number of items than its count (the field).
#[derive(Debug, PartialEq, Eq, Structural, Clone, Copy)]
pub struct CountMismatch(pub usize);

/// Bound violation of a repetition with both a minimum and a maximum.
#[derive(Debug, PartialEq, Eq, Structural, Clone, Copy)]
pub enum MinMaxRepeatError {
    LessThanMin(usize),
    MoreThanMax(usize),
}

/// Every alternative of a choice failed: their errors, in order.
#[derive(Debug)]
pub struct ChoiceError(pub Vec<ProductionError<RuleError>>);

/// The rule-specific part of a failure.
#[derive(Debug)]
pub enum RuleError {
    /// A terminal did not match; the range of the next character.
    Span(usize, usize),
    /// The regex engine gave up on the input (backtrack limit or stack).
    RegexRuntime,
    /// The item at the given index of a sequence failed.
    Sequence(usize, Box<RuleError>),
    Choice(ChoiceError),
    LessThanMin(LessThanMin),
    MoreThanMax(MoreThanMax),
    MinMax(MinMaxRepeatError),
    CountMismatch(CountMismatch),
    LookaheadMatched(LookaheadMatched),
    /// The named rule was entered again at the same position.
    LeftRecursion(usize),
    /// The reference names no rule of the grammar.
    UnknownRule(usize),
}

/// Mathematical model of a rule error.
pub enum ErrV {
    Span(int, int),
    RegexRuntime,
    Sequence(int, Box<ErrV>),
    Choice(Seq<ProductionError<ErrV>>),
    LessThanMin(int),
    MoreThanMax(int),
    MinMaxLess(int),
    MinMaxMore(int),
    CountMismatch(int),
    LookaheadMatched,
    LeftRecursion(int),
    UnknownRule(int),
}

/// Number of rule errors directly below `e`.
pub open spec fn error_child_count(e: RuleError) -> nat {
    match e {
        RuleError::Sequence(_, _) => 1,
        RuleError::Choice(c) => c.0.len() as nat,
        _ => 0,
    }
}

/// The rule error of `e` at index `i` (for a choice, that of its `i`-th alternative).
pub open spec fn error_child(e: RuleError, i: int) -> RuleError {
    match e {
        RuleError::Sequence(_, b) => *b,
        RuleError::Choice(c) => c.0[i]->Token_0,
        _ => e,
    }
}

impl View for RuleError {
    type V = ErrV;

    open spec fn view(&self) -> ErrV
        decreases self,
    {
        let kids = Seq::new(
            error_child_count(*self),
            |i: int|
                if 0 <= i < error_child_count(*self) && (*self is Choice ==> self->Choice_0.0[i] is Token) {
                    error_child(*self, i).view()
                } else {
                    ErrV::RegexRuntime
                },
        );
        match self {
            RuleError::Span(a, b) => ErrV::Span(*a as int, *b as int),
            RuleError::RegexRuntime => ErrV::RegexRuntime,
            RuleError::Sequence(i, _) => ErrV::Sequence(*i as int, Box::new(kids[0])),
            RuleError::Choice(c) => ErrV::Choice(
                Seq::new(
                    c.0.len() as nat,
                    |i: int|
                        if c.0[i] is Token {
                            ProductionError::Token(kids[i])
                        } else {
                            ProductionError::EndStream
                        },
                ),
            ),
            RuleError::LessThanMin(m) => ErrV::LessThanMin(m.0 as int),
            RuleError::MoreThanMax(m) => ErrV::MoreThanMax(m.0 as int),
            RuleError::MinMax(MinMaxRepeatError::LessThanMin(m)) => ErrV::MinMaxLess(*m as int),
            RuleError::MinMax(MinMaxRepeatError::MoreThanMax(m)) => ErrV::MinMaxMore(*m as int),
            RuleError::CountMismatch(c) => ErrV::CountMismatch(c.0 as int),
            RuleError::LookaheadMatched(_) => ErrV::LookaheadMatched,
            RuleError::LeftRecursion(i) => ErrV::LeftRecursion(*i as int),
            RuleError::UnknownRule(i) => ErrV::UnknownRule(*i as int),
        }
    }
}

/// Models of the trees of `v`, in order.
pub open spec fn views(v: Seq<Node>) -> Seq<NodeV> {
    Seq::new(v.len(), |i: int| v[i]@)
}

/// Models of the failures of `v`, in order.
pub open spec fn error_views(v: Seq<ProductionError<RuleError>>) -> Seq<ProductionError<ErrV>> {
    Seq::new(v.len(), |i: int| v[i]@)
}

pub proof fn lemma_view_list(v: Vec<Node>)
    ensures
        Node::List(v)@ == NodeV::List(views(v@)),
{
    reveal_with_fuel(<Node as View>::view, 2);
    assert(Node::List(v)@->List_0 =~= views(v@));
}

pub proof fn lemma_view_sequence(v: Vec<Node>)
    ensures
        Node::Sequence(SeqOutput(v))@ == NodeV::Sequence(views(v@)),
{
    reveal_with_fuel(<Node as View>::view, 2);
    assert(Node::Sequence(SeqOutput(v))@->Sequence_0 =~= views(v@));
}

pub proof fn lemma_view_variant(i: usize, n: Node)
    ensures
        Node::Variant(i, Box::new(n))@ == NodeV::Variant(i as int, Box::new(n@)),
{
    reveal_with_fuel(<Node as View>::view, 2);
}

pub proof fn lemma_view_maybe(n: Node)
    ensures
        Node::Maybe(Some(Box::new(n)))@ == NodeV::Maybe(Some(Box::new(n@))),
{
    reveal_with_fuel(<Node as View>::view, 2);
}

pub proof fn lemma_view_error_sequence(k: usize, x: RuleError)
    ensures
        RuleError::Sequence(k, Box::new(x))@ == ErrV::Sequence(k as int, Box::new(x@)),
{
    reveal_with_fuel(<RuleError as View>::view, 2);
}

pub proof fn lemma_view_error_choice(v: Vec<ProductionError<RuleError>>)
    ensures
        RuleError::Choice(ChoiceError(v))@ == ErrV::Choice(error_views(v@)),
{
    reveal_with_fuel(<RuleError as View>::view, 2);
    assert(RuleError::Choice(ChoiceError(v))@->Choice_0 =~= error_views(v@));
}

pub proof fn lemma_views_push(v: Seq<Node>, n: Node)
    ensures
        views(v.push(n)) == views(v).push(n@),
{
    assert(views(v.push(n)) =~= views(v).push(n@));
}

pub proof fn lemma_error_views_push(v: Seq<ProductionError<RuleError>>, x: ProductionError<RuleError>)
    ensures
        error_views(v.push(x)) == error_views(v).push(x@),
{
    assert(error_views(v.push(x)) =~= error_views(v).push(x@));
}

/// A copy of a parse tree.
pub fn copy_node(n: &Node) -> (r: Node)
    ensures
        r@ == n@,
    decreases n,
{
    match n {
        Node::Text(a, b) => Node::Text(*a, *b),
        Node::Unit => Node::Unit,
        Node::Variant(i, b) => Node::Variant(*i, Box::new(copy_node(b))),
        Node::Maybe(m) => match m {
            Some(b) => Node::Maybe(Some(Box::new(copy_node(b)))),
            None => Node::Maybe(None),
        },
        Node::Sequence(o) => {
            let v = &o.0;
            let mut out: Vec<Node> = Vec::new();
            let mut k: usize = 0;
            while k < v.len()
                invariant
                    k <= v.len(),
                    *n is Sequence,
                    n->Sequence_0.0 == *v,
                    out.len() == k,
                    forall|j: int| 0 <= j < k ==> (#[trigger] out@[j])@ == v@[j]@,
                decreases v.len() - k,
            {
                proof {
                    assert(decreases_to!(*n => n->Sequence_0));
                    assert(decreases_to!(n->Sequence_0 => n->Sequence_0.0));
                    assert(decreases_to!(*v => v[k as int]));
                }
                let c = copy_node(&v[k]);
                out.push(c);
                k += 1;
            }
            let r = Node::Sequence(SeqOutput(out));
            proof {
                reveal_with_fuel(<Node as View>::view, 2);
            }
            assert(r@->Sequence_0 =~= n@->Sequence_0);
            r
        },
        Node::List(v) => {
            let mut out: Vec<Node> = Vec::new();
            let mut k: usize = 0;
            while k < v.len()
                invariant
                    k <= v.len(),
                    *n is List,
                    n->List_0 == *v,
                    out.len() == k,
                    forall|j: int| 0 <= j < k ==> (#[trigger] out@[j])@ == v@[j]@,
                decreases v.len() - k,
            {
                proof {
                    assert(decreases_to!(*n => n->List_0));
                    assert(decreases_to!(*v => v[k as int]));
                }
                let c = copy_node(&v[k]);
                out.push(c);
                k += 1;
            }
            let r = Node::List(out);
            proof {
                reveal_with_fuel(<Node as View>::view, 2);
            }
            assert(r@->List_0 =~= n@->List_0);
            r
        },
    }
}

/// A copy of a rule error.
pub fn copy_error(e: &RuleError) -> (r: RuleError)
    ensures
        r@ == e@,
    decreases e,
{
    match e {
        RuleError::Span(a, b) => RuleError::Span(*a, *b),
        RuleError::RegexRuntime => RuleError::RegexRuntime,
        RuleError::Sequence(i, b) => RuleError::Sequence(*i, Box::new(copy_error(b))),
        RuleError::Choice(c) => {
            let v = &c.0;
            let mut out: Vec<ProductionError<RuleError>> = Vec::new();
            let mut k: usize = 0;
            while k < v.len()
                invariant
                    k <= v.len(),
                    *e is Choice,
                    e->Choice_0.0 == *v,
                    out.len() == k,
                    forall|j: int| 0 <= j < k ==> (#[trigger] out@[j])@ == v@[j]@,
                decreases v.len() - k,
            {
                let c = match &v[k] {
                    ProductionError::Token(x) => {
                        proof {
                            assert(decreases_to!(*e => e->Choice_0));
                            assert(decreases_to!(e->Choice_0 => e->Choice_0.0));
                            assert(decreases_to!(*v => v[k as int]));
                            assert(decreases_to!(v[k as int] => v[k as int]->Token_0));
                        }
                        ProductionError::Token(copy_error(x))
                    },
                    ProductionError::EndStream => ProductionError::EndStream,
                };
                out.push(c);
                k += 1;
            }
            let r = RuleError::Choice(ChoiceError(out));
            proof {
                reveal_with_fuel(<RuleError as View>::view, 2);
            }
            assert(r@->Choice_0 =~= e@->Choice_0);
            r
        },
        RuleError::LessThanMin(m) => RuleError::LessThanMin(*m),
        RuleError::MoreThanMax(m) => RuleError::MoreThanMax(*m),
        RuleError::MinMax(m) => RuleError::MinMax(*m),
        RuleError::CountMismatch(c) => RuleError::CountMismatch(*c),
        RuleError::LookaheadMatched(l) => RuleError::LookaheadMatched(*l),
        RuleError::LeftRecursion(i) => RuleError::LeftRecursion(*i),
        RuleError::UnknownRule(i) => RuleError::UnknownRule(*i),
    }
}

/// A copy of a failure.
pub fn copy_production_error(e: &ProductionError<RuleError>) -> (r: ProductionError<RuleError>)
    ensures
        r@ == e@,
{
    match e {
        ProductionError::Token(x) => ProductionError::Token(copy_error(x)),
        ProductionError::EndStream => ProductionError::EndStream,
    }
}

} // verus!

verus! {

/// Whether two trees are equal.
fn node_eq(a: &Node, b: &Node) -> (r: bool)
    ensures
        r == (a@ == b@),
    decreases a,
{
    proof {
        reveal_with_fuel(<Node as View>::view, 2);
    }
    match (a, b) {
        (Node::Text(x, y), Node::Text(z, w)) => *x == *z && *y == *w,
        (Node::Unit, Node::Unit) => true,
        (Node::Variant(i, x), Node::Variant(j, y)) => {
            if *i != *j {
                return false;
            }
            proof {
                assert(decreases_to!(*a => a->Variant_1));
            }
            node_eq(x, y)
        },
        (Node::Maybe(Some(x)), Node::Maybe(Some(y))) => {
            proof {
                assert(decreases_to!(*a => a->Maybe_0));
                assert(decreases_to!(a->Maybe_0 => a->Maybe_0->Some_0));
            }
            node_eq(x, y)
        },
        (Node::Maybe(None), Node::Maybe(None)) => true,
        (Node::Sequence(v), Node::Sequence(w)) => {
            let r = nodes_eq(a, &v.0, &w.0);
            proof {
                if r {
                    assert(a@->Sequence_0 =~= b@->Sequence_0);
                } else if v.0.len() == w.0.len() {
                    let k = choose|k: int| 0 <= k < v.0.len() && v.0@[k]@ != w.0@[k]@;
                    assert(a@->Sequence_0[k] != b@->Sequence_0[k]);
                } else {
                    assert(a@->Sequence_0.len() != b@->Sequence_0.len());
                }
            }
            r
        },
        (Node::List(v), Node::List(w)) => {
            let r = nodes_eq(a, v, w);
            proof {
                if r {
                    assert(a@->List_0 =~= b@->List_0);
                } else if v.len() == w.len() {
                    let k = choose|k: int| 0 <= k < v.len() && v@[k]@ != w@[k]@;
                    assert(a@->List_0[k] != b@->List_0[k]);
                } else {
                    assert(a@->List_0.len() != b@->List_0.len());
                }
            }
            r
        },
        _ => false,
    }
}

/// Whether two lists of subtrees of `parent` are equal, tree by tree.
fn nodes_eq(parent: &Node, v: &Vec<Node>, w: &Vec<Node>) -> (r: bool)
    requires
        (*parent is Sequence && parent->Sequence_0.0 == *v) || (*parent is List && parent->List_0 == *v),
    ensures
        r == (v.len() == w.len() && forall|k: int| 0 <= k < v.len() ==> v@[k]@ == w@[k]@),
    decreases parent, 0int,
{
    if v.len() != w.len() {
        return false;
    }
    let mut k: usize = 0;
    while k < v.len()
        invariant
            k <= v.len(),
            v.len() == w.len(),
            (*parent is Sequence && parent->Sequence_0.0 == *v) || (*parent is List && parent->List_0 == *v),
            forall|j: int| 0 <= j < k ==> v@[j]@ == w@[j]@,
        decreases v.len() - k,
    {
        proof {
            if *parent is Sequence {
                assert(decreases_to!(*parent => parent->Sequence_0));
                assert(decreases_to!(parent->Sequence_0 => parent->Sequence_0.0));
            } else {
                assert(decreases_to!(*parent => parent->List_0));
            }
            assert(decreases_to!(*v => v[k as int]));
        }
        if !node_eq(&v[k], &w[k]) {
            return false;
        }
        k += 1;
    }
    true
}

impl PartialEq for Node {
    fn eq(&self, other: &Node) -> (r: bool) {
        node_eq(self, other)
    }
}

impl vstd::std_specs::cmp::PartialEqSpecImpl for Node {
    open spec fn obeys_eq_spec() -> bool {
        true
    }

    open spec fn eq_spec(&self, other: &Node) -> bool {
        self@ == other@
    }
}

} // verus!

verus! {

/// Whether two rule errors are equal.
fn error_eq(a: &RuleError, b: &RuleError) -> (r: bool)
    ensures
        r == (a@ == b@),
    decreases a,
{
    proof {
        reveal_with_fuel(<RuleError as View>::view, 2);
    }
    match (a, b) {
        (RuleError::Span(x, y), RuleError::Span(z, w)) => *x == *z && *y == *w,
        (RuleError::RegexRuntime, RuleError::RegexRuntime) => true,
        (RuleError::Sequence(i, x), RuleError::Sequence(j, y)) => {
            if *i != *j {
                return false;
            }
            proof {
                assert(decreases_to!(*a => a->Sequence_1));
            }
            error_eq(x, y)
        },
        (RuleError::Choice(v), RuleError::Choice(w)) => {
            let r = errors_eq(a, &v.0, &w.0);
            proof {
                if r {
                    assert forall|k: int| 0 <= k < v.0.len() implies a@->Choice_0[k] == b@->Choice_0[k] by {
                        if v.0@[k] is Token {
                            assert(error_child(*a, k)@ == v.0@[k]->Token_0@);
                        }
                    }
                    assert(a@->Choice_0 =~= b@->Choice_0);
                } else if v.0.len() == w.0.len() {
                    let k = choose|k: int| 0 <= k < v.0.len() && v.0@[k]@ != w.0@[k]@;
                    assert(a@->Choice_0[k] != b@->Choice_0[k]);
                } else {
                    assert(a@->Choice_0.len() != b@->Choice_0.len());
                }
            }
            r
        },
        (RuleError::LessThanMin(x), RuleError::LessThanMin(y)) => x.0 == y.0,
        (RuleError::MoreThanMax(x), RuleError::MoreThanMax(y)) => x.0 == y.0,
        (
            RuleError::MinMax(MinMaxRepeatError::LessThanMin(x)),
            RuleError::MinMax(MinMaxRepeatError::LessThanMin(y)),
        ) => *x == *y,
        (
            RuleError::MinMax(MinMaxRepeatError::MoreThanMax(x)),
            RuleError::MinMax(MinMaxRepeatError::MoreThanMax(y)),
        ) => *x == *y,
        (RuleError::CountMismatch(x), RuleError::CountMismatch(y)) => x.0 == y.0,
        (RuleError::LookaheadMatched(_), RuleError::LookaheadMatched(_)) => true,
        (RuleError::LeftRecursion(x), RuleError::LeftRecursion(y)) => *x == *y,
        (RuleError::UnknownRule(x), RuleError::UnknownRule(y)) => *x == *y,
        _ => false,
    }
}

/// Whether the failures of two choices are equal, one by one.
fn errors_eq(parent: &RuleError, v: &Vec<ProductionError<RuleError>>, w: &Vec<ProductionError<RuleError>>) -> (r: bool)
    requires
        *parent is Choice,
        parent->Choice_0.0 == *v,
    ensures
        r == (v.len() == w.len() && forall|k: int| 0 <= k < v.len() ==> v@[k]@ == w@[k]@),
    decreases parent, 0int,
{
    if v.len() != w.len() {
        return false;
    }
    let mut k: usize = 0;
    while k < v.len()
        invariant
            k <= v.len(),
            v.len() == w.len(),
            *parent is Choice,
            parent->Choice_0.0 == *v,
            forall|j: int| 0 <= j < k ==> v@[j]@ == w@[j]@,
        decreases v.len() - k,
    {
        let same = match (&v[k], &w[k]) {
            (ProductionError::Token(x), ProductionError::Token(y)) => {
                proof {
                    assert(decreases_to!(*parent => parent->Choice_0));
                    assert(decreases_to!(parent->Choice_0 => parent->Choice_0.0));
                    assert(decreases_to!(*v => v[k as int]));
                    assert(decreases_to!(v[k as int] => v[k as int]->Token_0));
                }
                error_eq(x, y)
            },
            (ProductionError::EndStream, ProductionError::EndStream) => true,
            _ => false,
        };
        if !same {
            return false;
        }
        k += 1;
    }
    true
}

impl PartialEq for RuleError {
    fn eq(&self, other: &RuleError) -> (r: bool) {
        error_eq(self, other)
    }
}

impl vstd::std_specs::cmp::PartialEqSpecImpl for RuleError {
    open spec fn obeys_eq_spec() -> bool {
        true
    }

    open spec fn eq_spec(&self, other: &RuleError) -> bool {
        self@ == other@
    }
}

} // verus!
