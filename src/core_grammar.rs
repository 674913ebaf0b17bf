use crate::grammar::{full_match, is_lit, is_re, list_len, lit, part, present, r, re, text, variant, GExpr, GrammarError, RuleBody, RuleDef};
use crate::input::{apply, CachedIter, CharsIter, Grammar};
use crate::node::Node;
use crate::rules::{Expr, Repeat, RepeatMarker};
use crate::terminal::{anchored, regex_compiles};
use vstd::prelude::*;

verus! {

// Rules of the core dialect, by index.
pub const C_SPACE: usize = 0;
pub const C_IDENT: usize = 1;
pub const C_STR: usize = 2;
pub const C_TOKEN: usize = 3;
pub const C_HEAD: usize = 4;
pub const C_SAFE: usize = 5;
pub const C_CHOICE: usize = 6;
pub const C_SEQ: usize = 7;
pub const C_EXPR: usize = 8;
pub const C_RULE: usize = 9;
pub const C_GRAMMAR: usize = 10;

/// Rule `k` of the core dialect, as `core_language` builds it.
pub open spec fn core_rule(k: int, x: Expr) -> bool {
    if k == 0 {
        x is Optional
            && is_re((*x->Optional_0), "\\s+"@)
    } else if k == 1 {
        is_re(x, "[A-Za-z_0-9]+"@)
    } else if k == 2 {
        x is Sequence
            && x->Sequence_0.0@.len() == 2
            && x->Sequence_0.0@[0] is Wrap
            && is_lit((*x->Sequence_0.0@[0]->Wrap_0), "\""@)
            && is_re((*x->Sequence_0.0@[0]->Wrap_1), "([^\"\\\\]|\\\\.)+"@)
            && is_lit((*x->Sequence_0.0@[0]->Wrap_2), "\""@)
            && x->Sequence_0.0@[1] is Optional
            && is_lit((*x->Sequence_0.0@[1]->Optional_0), "s"@)
    } else if k == 3 {
        x is Choice
            && x->Choice_0.0@.len() == 2
            && x->Choice_0.0@[0] == Expr::Ref(C_IDENT)
            && x->Choice_0.0@[1] == Expr::Ref(C_STR)
    } else if k == 4 {
        x is Sequence
            && x->Sequence_0.0@.len() == 3
            && x->Sequence_0.0@[0] == Expr::Ref(C_IDENT)
            && x->Sequence_0.0@[1] == Expr::Ref(C_SPACE)
            && is_lit(x->Sequence_0.0@[2], "="@)
    } else if k == 5 {
        x is Sequence
            && x->Sequence_0.0@.len() == 2
            && x->Sequence_0.0@[0] is NegativeLookahead
            && (*x->Sequence_0.0@[0]->NegativeLookahead_0) is Sequence
            && (*x->Sequence_0.0@[0]->NegativeLookahead_0)->Sequence_0.0@.len() == 2
            && (*x->Sequence_0.0@[0]->NegativeLookahead_0)->Sequence_0.0@[0] == Expr::Ref(C_SPACE)
            && (*x->Sequence_0.0@[0]->NegativeLookahead_0)->Sequence_0.0@[1] == Expr::Ref(C_HEAD)
            && x->Sequence_0.0@[1] == Expr::Ref(C_TOKEN)
    } else if k == 6 {
        x is Joinable
            && x->Joinable_0.min == 2
            && (*x->Joinable_0.rule) == Expr::Ref(C_TOKEN)
            && (*x->Joinable_0.join) is Wrap
            && (*(*x->Joinable_0.join)->Wrap_0) == Expr::Ref(C_SPACE)
            && is_lit((*(*x->Joinable_0.join)->Wrap_1), "/"@)
            && (*(*x->Joinable_0.join)->Wrap_2) == Expr::Ref(C_SPACE)
    } else if k == 7 {
        x is Joinable
            && x->Joinable_0.min == 2
            && (*x->Joinable_0.rule) == Expr::Ref(C_SAFE)
            && (*x->Joinable_0.join) == Expr::Ref(C_SPACE)
    } else if k == 8 {
        x is Choice
            && x->Choice_0.0@.len() == 3
            && x->Choice_0.0@[0] == Expr::Ref(C_CHOICE)
            && x->Choice_0.0@[1] == Expr::Ref(C_SEQ)
            && x->Choice_0.0@[2] == Expr::Ref(C_TOKEN)
    } else if k == 9 {
        x is Sequence
            && x->Sequence_0.0@.len() == 3
            && x->Sequence_0.0@[0] == Expr::Ref(C_HEAD)
            && x->Sequence_0.0@[1] == Expr::Ref(C_SPACE)
            && x->Sequence_0.0@[2] == Expr::Ref(C_EXPR)
    } else if k == 10 {
        x is Repeat
            && x->Repeat_0.marker == RepeatMarker::Repeat(Repeat)
            && (*x->Repeat_0.rule) is Wrap
            && (*(*x->Repeat_0.rule)->Wrap_0) == Expr::Ref(C_SPACE)
            && (*(*x->Repeat_0.rule)->Wrap_1) == Expr::Ref(C_RULE)
            && (*(*x->Repeat_0.rule)->Wrap_2) == Expr::Ref(C_SPACE)
    } else {
        false
    }
}

/// The grammar of the core dialect: its 11 rules, by their indices.
pub open spec fn core_language_spec(g: Seq<Expr>) -> bool {
    g.len() == 11 && forall|k: int| 0 <= k < 11 ==> core_rule(k, #[trigger] g[k])
}

/// Every regex pattern of the core dialect compiles.
pub open spec fn core_patterns_compile() -> bool {
    regex_compiles(anchored("\\s+"@)) && regex_compiles(anchored("[A-Za-z_0-9]+"@)) && regex_compiles(
        anchored("([^\"\\\\]|\\\\.)+"@),
    )
}

/// The grammar of the core dialect: rules `Head = expr`, where `expr` is a choice `t / t ...`
/// of two or more tokens, a sequence `t t ...` of two or more tokens, or one token; a token is
/// a name or a quoted literal (with `s` for a substring).
pub(crate) fn core_language() -> (r: Result<Grammar, GrammarError>)
    ensures
        r matches Ok(g) ==> core_language_spec(g.rules@),
        r is Ok <==> core_patterns_compile(),
        r matches Err(e) ==> e is Reader,
{
    let mut rules: Vec<Expr> = Vec::new();
    rules.push(Expr::optional(re("\\s+")?));
    rules.push(re("[A-Za-z_0-9]+")?);
    rules.push(Expr::seq(vec![Expr::wrap(lit("\""), re("([^\"\\\\]|\\\\.)+")?, lit("\"")), Expr::optional(lit("s"))]));
    rules.push(Expr::choice(vec![r(C_IDENT), r(C_STR)]));
    rules.push(Expr::seq(vec![r(C_IDENT), r(C_SPACE), lit("=")]));
    rules.push(Expr::seq(vec![Expr::not(Expr::seq(vec![r(C_SPACE), r(C_HEAD)])), r(C_TOKEN)]));
    rules.push(Expr::join(r(C_TOKEN), Expr::wrap(r(C_SPACE), lit("/"), r(C_SPACE)), 2));
    rules.push(Expr::join(r(C_SAFE), r(C_SPACE), 2));
    rules.push(Expr::choice(vec![r(C_CHOICE), r(C_SEQ), r(C_TOKEN)]));
    rules.push(Expr::seq(vec![r(C_HEAD), r(C_SPACE), r(C_EXPR)]));
    rules.push(Expr::repeat(Expr::wrap(r(C_SPACE), r(C_RULE), r(C_SPACE)), RepeatMarker::Repeat(Repeat)));
    Ok(Grammar { rules })
}

/// A token node: a name, or a literal.
fn read_token(it: &CachedIter, n: &Node) -> (r: Result<GExpr, GrammarError>)
    requires
        it.wf(),
    ensures
        r matches Err(e) ==> e is Reader || e is BadCounter,
{
    let which = variant(n)?;
    let body = part(n, 0)?;
    if which == 0 {
        Ok(GExpr::Ident(text(it, body)?))
    } else {
        let content = part(body, 0)?;
        let suffix = part(body, 1)?;
        Ok(GExpr::Literal(text(it, content)?, present(suffix)))
    }
}

fn read_core_rule(it: &CachedIter, n: &Node) -> (r: Result<RuleDef, GrammarError>)
    requires
        it.wf(),
    ensures
        r matches Err(e) ==> e is Reader || e is BadCounter,
{
    let head = part(n, 0)?;
    let name_node = part(head, 0)?;
    let name = text(it, name_node)?;
    let e = part(n, 2)?;
    let which = variant(e)?;
    let body = part(e, 0)?;
    let expr = if which == 2 {
        read_token(it, body)?
    } else {
        let count = list_len(body);
        let mut items: Vec<GExpr> = Vec::new();
        let mut i: usize = 0;
        while i < count
            invariant
                it.wf(),
            decreases count - i,
        {
            let item = part(body, i)?;
            let token = if which == 1 {
                part(item, 1)?
            } else {
                item
            };
            items.push(read_token(it, token)?);
            i += 1;
        }
        if which == 0 {
            GExpr::Choice(items)
        } else {
            GExpr::Sequence(items)
        }
    };
    Ok(RuleDef { name, params: Vec::new(), body: RuleBody::Alias(expr) })
}

/// Reads the rule definitions of a text in the core dialect. It fails with `Syntax` exactly
/// when the core dialect does not match the whole text, holding the text left where reading
/// stopped; with `TooLarge` when the text is too long for the memo; with `Reader` when a
/// pattern of the dialect does not compile, or (`Reader`, `BadCounter`) when the tree cannot
/// be read.
pub fn parse_core_grammar(src: &str) -> (r: Result<Vec<RuleDef>, GrammarError>)
    ensures
        r matches Err(GrammarError::Syntax(rest)) ==> exists|i: int|
            0 <= i <= src@.len() && rest@ == #[trigger] src@.subrange(i, src@.len() as int),
        !core_patterns_compile() ==> r matches Err(GrammarError::Reader),
        (r matches Err(GrammarError::TooLarge)) <==> (core_patterns_compile() && src@.len() >= usize::MAX / 11),
        core_patterns_compile() && src@.len() < usize::MAX / 11 ==> exists|g: Seq<Expr>|
            core_language_spec(g) && ((r matches Err(GrammarError::Syntax(_))) <==> !full_match(g, src@, C_GRAMMAR)),
        r matches Err(e) ==> e is Syntax || e is TooLarge || e is Reader || e is BadCounter,
{
    let lang = match core_language() {
        Ok(l) => l,
        Err(x) => return Err(x),
    };
    let ghost lg = lang.rules@;
    let input = CharsIter::new(src);
    if input.len() >= usize::MAX / 11 {
        return Err(GrammarError::TooLarge);
    }
    assert((input.text().len() + 1) * lang.rules.len() <= usize::MAX) by (nonlinear_arith)
        requires input.text().len() < usize::MAX / 11, lang.rules.len() == 11;
    let mut it = CachedIter::new(input, lang);
    let ghost before = it;
    let tree = match it.full_parse(&Expr::Ref(C_GRAMMAR)) {
        Ok(t) => t,
        Err(e) => {
            let at = it.cursor();
            proof {
                let o = apply(before.grammar(), before.stream().text(), Expr::Ref(C_GRAMMAR), before.stream().pos());
                if o is Ok {
                    assert(e.residue@ == src@.subrange(at as int, src@.len() as int));
                } else {
                    assert(e.residue@ == src@.subrange(at as int, src@.len() as int));
                }
                assert(!full_match(lg, src@, C_GRAMMAR));
            }
            return Err(GrammarError::Syntax(e.residue));
        },
    };
    assert(full_match(lg, src@, C_GRAMMAR));
    let count = list_len(&tree);
    let mut defs: Vec<RuleDef> = Vec::new();
    let mut i: usize = 0;
    while i < count
        invariant
            it.wf(),
            core_patterns_compile(),
            src@.len() < usize::MAX / 11,
            core_language_spec(lg),
            full_match(lg, src@, C_GRAMMAR),
        decreases count - i,
    {
        let item = match part(&tree, i) {
            Ok(x) => x,
            Err(x) => return Err(x),
        };
        match read_core_rule(&it, item) {
            Ok(d) => defs.push(d),
            Err(x) => return Err(x),
        }
        i += 1;
    }
    Ok(defs)
}

} // verus!
