use vstd::prelude::*;
use vstd::string::{StrSliceExecFns, StringExecFns};

verus! {

#[verifier::external_type_specification]
#[verifier::external_body]
pub struct ExRegex(fancy_regex::Regex);

#[verifier::external_type_specification]
#[verifier::external_body]
pub struct ExRegexError(fancy_regex::Error);

/// What the regex engine reports when `pattern` is searched for in `haystack`: `None` when
/// the search fails, else the leftmost match, if any, as its start offset and its text.
pub uninterp spec fn regex_find(pattern: Seq<char>, haystack: Seq<char>) -> Option<Option<(int, Seq<char>)>>;

/// A pattern compiled once, kept with the text it was compiled from.
#[derive(Debug)]
pub struct CompiledRegex {
    pattern: String,
    regex: fancy_regex::Regex,
}

impl CompiledRegex {
    /// The pattern the regex was compiled from.
    pub closed spec fn pattern(&self) -> Seq<char> {
        self.pattern@
    }

    pub fn as_str(&self) -> (r: &str)
        ensures
            r@ == self.pattern(),
    {
        self.pattern.as_str()
    }
}

/// Whether the regex engine accepts `pattern`: whether it parses and compiles.
pub uninterp spec fn regex_compiles(pattern: Seq<char>) -> bool;

/// Relies on fancy_regex::Regex::new: compiles `pattern`, or reports why it cannot; whether
/// it can depends on the pattern alone.
#[verifier::external_body]
fn compile(pattern: &str) -> (r: Result<CompiledRegex, fancy_regex::Error>)
    ensures
        r is Ok <==> regex_compiles(pattern@),
        r matches Ok(c) ==> c.pattern() == pattern@,
{
    fancy_regex::Regex::new(pattern).map(|regex| CompiledRegex { pattern: pattern.to_string(), regex })
}

/// Relies on fancy_regex::Regex::find: the leftmost match of the compiled pattern in
/// `haystack`, as its start (a byte offset) and its text.
#[verifier::external_body]
fn find(re: &CompiledRegex, haystack: &str) -> (r: Result<Option<(usize, String)>, fancy_regex::Error>)
    ensures
        match regex_find(re.pattern(), haystack@) {
            None => r is Err,
            Some(None) => r matches Ok(None),
            Some(Some(m)) => r matches Ok(Some(f)) && f.0 as int == m.0 && f.1@ == m.1,
        },
{
    re.regex.find(haystack).map(|m| m.map(|m| (m.start(), m.as_str().to_string())))
}

/// The characters of `s`, collected.
#[verifier::external_body]
pub(crate) fn chars_of(s: &str) -> (r: Vec<char>)
    ensures
        r@ == s@,
{
    s.chars().collect()
}

/// The pattern that anchors `pattern` at the start of the text searched.
pub open spec fn anchored(pattern: Seq<char>) -> Seq<char> {
    seq!['^'] + pattern
}

/// Compiles `pattern` anchored at the current position.
pub fn compile_anchored(pattern: &str) -> (r: Result<CompiledRegex, fancy_regex::Error>)
    ensures
        r is Ok <==> regex_compiles(anchored(pattern@)),
        r matches Ok(c) ==> c.pattern() == anchored(pattern@),
{
    let mut p = String::from_str("^");
    proof {
        reveal_strlit("^");
    }
    p.append(pattern);
    assert(p@ =~= anchored(pattern@));
    compile(p.as_str())
}

/// Outcome of a regex terminal on the text `rest` that follows the cursor: `None` when the
/// engine fails, `Some(0)` on a mismatch, `Some(n)` when the pattern matches the first `n`
/// characters, `n > 0`.
pub open spec fn regex_prefix(pattern: Seq<char>, rest: Seq<char>) -> Option<int> {
    match regex_find(pattern, rest) {
        None => None,
        Some(None) => Some(0),
        Some(Some(m)) => if m.0 == 0 && 0 < m.1.len() <= rest.len() && rest.subrange(0, m.1.len() as int) == m.1 {
            Some(m.1.len() as int)
        } else {
            Some(0)
        },
    }
}

/// Runs a regex terminal on `rest`; see `regex_prefix`.
pub fn match_regex(re: &CompiledRegex, rest: &str) -> (r: Option<usize>)
    ensures
        match regex_prefix(re.pattern(), rest@) {
            None => r is None,
            Some(n) => r == Some(n as usize),
        },
{
    match find(re, rest) {
        Err(_) => None,
        Ok(None) => Some(0),
        Ok(Some(m)) => {
            let len = m.1.as_str().unicode_len();
            let total = rest.unicode_len();
            if m.0 == 0 && 0 < len && len <= total {
                let head = rest.substring_char(0, len);
                let head_owned = String::from_str(head);
                if head_owned == m.1 {
                    Some(len)
                } else {
                    Some(0)
                }
            } else {
                Some(0)
            }
        },
    }
}

/// True when `lit` occurs in `s` at position `p`.
pub open spec fn starts_with_at(s: Seq<char>, p: int, lit: Seq<char>) -> bool {
    p + lit.len() <= s.len() && s.subrange(p, p + lit.len()) == lit
}

/// Compares `lit` with the characters of `s` from `p` on.
pub fn match_substr(s: &Vec<char>, p: usize, lit: &Vec<char>) -> (r: bool)
    requires
        p <= s.len(),
    ensures
        r == starts_with_at(s@, p as int, lit@),
{
    if lit.len() > s.len() - p {
        return false;
    }
    let mut i: usize = 0;
    while i < lit.len()
        invariant
            i <= lit.len(),
            p + lit.len() <= s.len(),
            forall|j: int| 0 <= j < i ==> s@[p + j] == lit@[j],
        decreases lit.len() - i,
    {
        if s[p + i] != lit[i] {
            assert(s@.subrange(p as int, p + lit.len())[i as int] != lit@[i as int]);
            return false;
        }
        i += 1;
    }
    assert(s@.subrange(p as int, p + lit.len()) =~= lit@);
    true
}

} // verus!
