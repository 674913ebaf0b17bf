use crate::buffer::{Cursorable, Peekab};
use crate::engine::{memo_key, outcome, transfer, PackratCache};
use crate::node::{Node, RuleError};
use crate::production::ProductionError;
use crate::rules::{act_ok, sem, Expr, Outcome};
use vstd::prelude::*;
use vstd::string::{StrSliceExecFns, StringExecFns};

verus! {

/// The named rules of a grammar; `Expr::Ref(i)` refers to `rules[i]`.
#[derive(Debug)]
pub struct Grammar {
    pub rules: Vec<Expr>,
}

/// Applying `rule` at the cursor of a stream over `s` positioned at `p`, no named rule entered.
pub open spec fn apply(g: Grammar, s: Seq<char>, rule: Expr, p: int) -> Outcome {
    sem(g.rules@, s, rule, p, Set::empty())
}

/// A cursor over the characters of a text. The cursor counts characters and never leaves
/// the text.
#[derive(Debug)]
pub struct CharsIter {
    src: String,
    chars: Vec<char>,
    offset: usize,
}

/// A character stream that can show what is left after its cursor.
pub trait CharsIterTrait {
    spec fn ready(&self) -> bool;

    /// The characters from the cursor on.
    spec fn remaining(&self) -> Seq<char>;

    fn as_str(&self) -> (r: String)
        requires
            self.ready(),
        ensures
            r@ == self.remaining(),
    ;
}

/// A top-level failure: what the rule gave, and the text left after the cursor.
#[derive(Debug)]
pub struct ParseError {
    pub parse_result: Result<Node, ProductionError<RuleError>>,
    pub residue: String,
}

impl CharsIter {
    /// The whole text.
    pub closed spec fn text(&self) -> Seq<char> {
        self.chars@
    }

    /// The cursor.
    pub closed spec fn pos(&self) -> int {
        self.offset as int
    }

    pub closed spec fn wf(&self) -> bool {
        self.src@ == self.chars@ && self.offset <= self.chars.len()
    }

    /// A well-formed stream's cursor lies within its text.
    pub proof fn lemma_cursor_in_text(&self)
        requires
            self.wf(),
        ensures
            0 <= self.pos() <= self.text().len(),
    {
    }

    pub fn new(src: &str) -> (r: Self)
        ensures
            r.wf(),
            r.text() == src@,
            r.pos() == 0,
    {
        CharsIter { src: String::from_str(src), chars: crate::terminal::chars_of(src), offset: 0 }
    }

    /// Number of characters of the text.
    pub fn len(&self) -> (r: usize)
        requires
            self.wf(),
        ensures
            r == self.text().len(),
    {
        self.chars.len()
    }

    /// The characters `[start, end)` of the text, such as those a `Node::Text` covers.
    pub fn slice(&self, start: usize, end: usize) -> (r: String)
        requires
            self.wf(),
            start <= end <= self.text().len(),
        ensures
            r@ == self.text().subrange(start as int, end as int),
    {
        String::from_str(self.src.as_str().substring_char(start, end))
    }

    /// The remaining characters; the cursor stays where it is.
    pub fn tail(&self) -> (r: Vec<char>)
        requires
            self.wf(),
        ensures
            r@ == self.text().subrange(self.pos(), self.text().len() as int),
    {
        let mut r: Vec<char> = Vec::new();
        let mut i: usize = self.offset;
        while i < self.chars.len()
            invariant
                self.offset <= i <= self.chars.len(),
                r@ == self.chars@.subrange(self.offset as int, i as int),
            decreases self.chars.len() - i,
        {
            r.push(self.chars[i]);
            i += 1;
            assert(r@ =~= self.chars@.subrange(self.offset as int, i as int));
        }
        r
    }

    /// The character at the cursor, which then moves past it.
    pub fn next(&mut self) -> (r: Result<char, ProductionError<()>>)
        requires
            old(self).wf(),
        ensures
            final(self).wf(),
            final(self).text() == old(self).text(),
            old(self).pos() < old(self).text().len() ==> r == Ok::<char, ProductionError<()>>(old(self).text()[old(self).pos()])
                && final(self).pos() == old(self).pos() + 1,
            old(self).pos() >= old(self).text().len() ==> (r matches Err(ProductionError::EndStream))
                && final(self).pos() == old(self).pos(),
    {
        if self.offset < self.chars.len() {
            let c = self.chars[self.offset];
            self.offset = self.offset + 1;
            Ok(c)
        } else {
            Err(ProductionError::EndStream)
        }
    }

    /// Applies `rule` at the cursor with a memo of its own. On success the cursor moves to
    /// the end of the match; on failure it stays where it was.
    pub fn parse(&mut self, g: &Grammar, rule: &Expr) -> (r: Result<Node, ProductionError<RuleError>>)
        requires
            old(self).wf(),
            (old(self).text().len() + 1) * g.rules.len() <= usize::MAX,
        ensures
            final(self).wf(),
            final(self).text() == old(self).text(),
            outcome(r, final(self).pos() as usize) == apply(*g, old(self).text(), *rule, old(self).pos()),
            r is Err ==> final(self).pos() == old(self).pos(),
            old(self).pos() <= final(self).pos(),
    {
        let mut cache = PackratCache::new(g.rules.len(), self.chars.len());
        run(g, &self.src, &self.chars, rule, &mut self.offset, &mut cache)
    }

    /// `parse`, then a check that nothing is left: what is left makes an error that keeps
    /// the rule's output.
    pub fn full_parse(&mut self, g: &Grammar, rule: &Expr) -> (r: Result<Node, ParseError>)
        requires
            old(self).wf(),
            (old(self).text().len() + 1) * g.rules.len() <= usize::MAX,
        ensures
            final(self).wf(),
            final(self).text() == old(self).text(),
            full_outcome(r, final(self).pos(), final(self).text(), apply(*g, old(self).text(), *rule, old(self).pos()), old(self).pos()),
    {
        let res = self.parse(g, rule);
        finish(self, res)
    }
}

impl Cursorable for CharsIter {
    open spec fn position(&self) -> int {
        self.pos()
    }

    open spec fn length(&self) -> int {
        self.text().len() as int
    }

    open spec fn ok(&self) -> bool {
        self.wf()
    }

    fn cursor(&self) -> (r: usize) {
        self.offset
    }

    fn set_cursor(&mut self, c: usize) {
        self.offset = c;
    }
}

impl Peekab for CharsIter {
    type Item = char;

    open spec fn items(&self) -> Seq<char> {
        self.text()
    }

    fn peek_n(&self, k: usize) -> (r: Result<char, ProductionError<()>>) {
        if k < self.chars.len() - self.offset {
            Ok(self.chars[self.offset + k])
        } else {
            Err(ProductionError::EndStream)
        }
    }
}

impl CharsIterTrait for CharsIter {
    open spec fn ready(&self) -> bool {
        self.wf()
    }

    open spec fn remaining(&self) -> Seq<char> {
        self.text().subrange(self.pos(), self.text().len() as int)
    }

    fn as_str(&self) -> (r: String) {
        String::from_str(self.src.as_str().substring_char(self.offset, self.chars.len()))
    }
}

/// Tries `rule` at the cursor of `input`: on a match the cursor moves past it and the output
/// is returned; otherwise the cursor stays and the result is `None`.
pub fn optional_parse(input: &mut CharsIter, g: &Grammar, rule: &Expr) -> (r: Option<Node>)
    requires
        old(input).wf(),
        (old(input).text().len() + 1) * g.rules.len() <= usize::MAX,
    ensures
        final(input).wf(),
        final(input).text() == old(input).text(),
        match apply(*g, old(input).text(), *rule, old(input).pos()) {
            Ok((n, q)) => r matches Some(m) && m@ == n && final(input).pos() == q,
            Err(_) => r is None && final(input).pos() == old(input).pos(),
        },
{
    match input.parse(g, rule) {
        Ok(n) => Some(n),
        Err(_) => None,
    }
}

/// The result of a full parse, given what the rule gave from `p0` and the cursor `pos` after.
pub open spec fn full_outcome(r: Result<Node, ParseError>, pos: int, s: Seq<char>, o: Outcome, p0: int) -> bool {
    match o {
        Ok((n, q)) => pos == q && if q == s.len() {
            match r {
                Ok(m) => m@ == n,
                Err(_) => false,
            }
        } else {
            match r {
                Ok(_) => false,
                Err(e) => outcome(e.parse_result, q as usize) == o && e.residue@ == s.subrange(q, s.len() as int),
            }
        },
        Err(x) => pos == p0 && match r {
            Ok(_) => false,
            Err(e) => outcome(e.parse_result, 0) == o && e.residue@ == s.subrange(p0, s.len() as int),
        },
    }
}

fn finish(it: &CharsIter, res: Result<Node, ProductionError<RuleError>>) -> (r: Result<Node, ParseError>)
    requires
        it.wf(),
    ensures
        match res {
            Ok(n) => if it.pos() == it.text().len() {
                match r {
                    Ok(m) => m@ == n@,
                    Err(_) => false,
                }
            } else {
                match r {
                    Ok(_) => false,
                    Err(e) => outcome(e.parse_result, 0) == outcome(res, 0)
                        && e.residue@ == it.text().subrange(it.pos(), it.text().len() as int),
                }
            },
            Err(x) => match r {
                Ok(_) => false,
                Err(e) => outcome(e.parse_result, 0) == outcome(res, 0)
                    && e.residue@ == it.text().subrange(it.pos(), it.text().len() as int),
            },
        },
{
    match res {
        Ok(n) => {
            if it.offset == it.chars.len() {
                Ok(n)
            } else {
                Err(ParseError { parse_result: Ok(n), residue: it.as_str() })
            }
        },
        Err(x) => Err(ParseError { parse_result: Err(x), residue: it.as_str() }),
    }
}

/// Applies `rule` at `*cursor` through `cache`, moving the cursor on success.
fn run(
    g: &Grammar,
    src: &String,
    s: &Vec<char>,
    rule: &Expr,
    cursor: &mut usize,
    cache: &mut PackratCache,
) -> (r: Result<Node, ProductionError<RuleError>>)
    requires
        src@ == s@,
        *old(cursor) <= s.len(),
        old(cache).wf(g.rules@, s@),
    ensures
        final(cache).wf(g.rules@, s@),
        *final(cursor) <= s.len(),
        outcome(r, *final(cursor)) == apply(*g, s@, *rule, *old(cursor) as int),
        r is Err ==> *final(cursor) == *old(cursor),
        *old(cursor) <= *final(cursor),
        old(cache).keys().subset_of(final(cache).keys()),
        *rule is Ref && rule->Ref_0 < g.rules.len() && old(cache).keys().contains(memo_key(*old(cursor), old(cache).stride(), rule->Ref_0))
            ==> *final(cache) == *old(cache),
        *rule is Ref && rule->Ref_0 < g.rules.len() ==> final(cache).keys().contains(memo_key(*old(cursor), old(cache).stride(), rule->Ref_0)),
{
    let none: Vec<usize> = Vec::new();
    proof {
        crate::rules::lemma_act_empty(g.rules.len() as int);
        assert(crate::engine::active_set(none@) =~= Set::<int>::empty());
    }
    let p = *cursor;
    assert(Set::<int>::empty().is_empty());
    let (res, q) = transfer(&g.rules, src, s, rule, p, &none, Ghost(Set::empty()), cache);
    if res.is_ok() {
        *cursor = q;
    }
    res
}

/// A character stream with a packrat memo for one grammar: each named rule is computed at
/// most once per position.
#[derive(Debug)]
pub struct CachedIter {
    iter: CharsIter,
    grammar: Grammar,
    cache: PackratCache,
}

impl CachedIter {
    pub closed spec fn wf(&self) -> bool {
        self.iter.wf() && self.cache.wf(self.grammar.rules@, self.iter.text())
    }

    pub closed spec fn stream(&self) -> CharsIter {
        self.iter
    }

    pub closed spec fn grammar(&self) -> Grammar {
        self.grammar
    }

    pub closed spec fn memo(&self) -> PackratCache {
        self.cache
    }

    /// A well-formed stream's cursor lies within its text.
    pub proof fn lemma_cursor_in_text(&self)
        requires
            self.wf(),
        ensures
            0 <= self.stream().pos() <= self.stream().text().len(),
    {
    }

    pub proof fn lemma_memo(&self)
        requires
            self.wf(),
        ensures
            self.memo().wf(self.grammar().rules@, self.stream().text()),
    {
    }

    pub fn new(iter: CharsIter, grammar: Grammar) -> (r: Self)
        requires
            iter.wf(),
            (iter.text().len() + 1) * grammar.rules.len() <= usize::MAX,
        ensures
            r.wf(),
            r.stream() == iter,
            r.grammar() == grammar,
            r.memo().keys().is_empty(),
            r.memo().stride() == grammar.rules.len(),
    {
        let cache = PackratCache::new(grammar.rules.len(), iter.chars.len());
        CachedIter { iter, grammar, cache }
    }

    pub fn cursor(&self) -> (r: usize)
        ensures
            r == self.stream().pos(),
            self.wf() ==> r <= self.stream().text().len(),
    {
        self.iter.offset
    }

    /// Number of characters of the text.
    pub fn len(&self) -> (r: usize)
        requires
            self.wf(),
        ensures
            r == self.stream().text().len(),
    {
        self.iter.len()
    }

    /// Moves the cursor to `c`.
    pub fn set_cursor(&mut self, c: usize)
        requires
            old(self).wf(),
            c <= old(self).stream().text().len(),
        ensures
            final(self).wf(),
            final(self).grammar() == old(self).grammar(),
            final(self).stream().text() == old(self).stream().text(),
            final(self).stream().pos() == c,
            final(self).memo() == old(self).memo(),
    {
        self.iter.offset = c;
    }

    /// The characters `[start, end)` of the text.
    pub fn slice(&self, start: usize, end: usize) -> (r: String)
        requires
            self.wf(),
            start <= end <= self.stream().text().len(),
        ensures
            r@ == self.stream().text().subrange(start as int, end as int),
    {
        self.iter.slice(start, end)
    }

    /// Applies `rule` at the cursor, reusing and extending the memo. The result is what the
    /// rule gives there, whatever the memo held.
    pub fn cached_parse(&mut self, rule: &Expr) -> (r: Result<Node, ProductionError<RuleError>>)
        requires
            old(self).wf(),
        ensures
            final(self).wf(),
            final(self).grammar() == old(self).grammar(),
            final(self).stream().text() == old(self).stream().text(),
            outcome(r, final(self).stream().pos() as usize) == apply(old(self).grammar(), old(self).stream().text(), *rule, old(self).stream().pos()),
            r is Err ==> final(self).stream().pos() == old(self).stream().pos(),
            old(self).stream().pos() <= final(self).stream().pos(),
            old(self).memo().keys().subset_of(final(self).memo().keys()),
            *rule is Ref && rule->Ref_0 < old(self).grammar().rules.len() && old(self).memo().keys().contains(
                memo_key(old(self).stream().pos() as usize, old(self).memo().stride(), rule->Ref_0),
            ) ==> final(self).memo() == old(self).memo(),
            *rule is Ref && rule->Ref_0 < old(self).grammar().rules.len() ==> final(self).memo().keys().contains(
                memo_key(old(self).stream().pos() as usize, old(self).memo().stride(), rule->Ref_0),
            ),
    {
        run(&self.grammar, &self.iter.src, &self.iter.chars, rule, &mut self.iter.offset, &mut self.cache)
    }

    /// `cached_parse`, then a check that nothing is left.
    pub fn full_parse(&mut self, rule: &Expr) -> (r: Result<Node, ParseError>)
        requires
            old(self).wf(),
        ensures
            final(self).wf(),
            final(self).grammar() == old(self).grammar(),
            final(self).stream().text() == old(self).stream().text(),
            full_outcome(r, final(self).stream().pos(), final(self).stream().text(), apply(old(self).grammar(), old(self).stream().text(), *rule, old(self).stream().pos()), old(self).stream().pos()),
    {
        let res = self.cached_parse(rule);
        finish(&self.iter, res)
    }

    /// Whether the rule of index `id` has been memoized at position `p`.
    pub fn is_cached(&self, p: usize, id: usize) -> (r: bool)
        requires
            self.wf(),
            id < self.grammar().rules.len(),
            p <= self.stream().text().len(),
        ensures
            r == self.memo().keys().contains((p * self.grammar().rules.len() + id) as usize),
    {
        proof {
            self.cache.lemma_stride(self.grammar.rules@, self.iter.chars@);
            assert((p + 1) * self.cache.stride() <= (self.iter.chars.len() + 1) * self.cache.stride()) by (nonlinear_arith)
                requires p <= self.iter.chars.len();
        }
        self.cache.is_cached(p, id)
    }

    /// The number of memoized rule applications.
    pub fn cache_len(&self) -> (r: usize)
        ensures
            r == self.memo().keys().len(),
    {
        self.cache.len()
    }
}

impl CharsIterTrait for CachedIter {
    open spec fn ready(&self) -> bool {
        self.wf()
    }

    open spec fn remaining(&self) -> Seq<char> {
        self.stream().text().subrange(self.stream().pos(), self.stream().text().len() as int)
    }

    fn as_str(&self) -> (r: String) {
        self.iter.as_str()
    }
}

} // verus!
