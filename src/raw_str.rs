use vstd::prelude::*;
use vstd::string::{StrSliceExecFns, StringExecFns};

verus! {

/// Number of `#` characters in `s` from index `i` on, before another character.
pub open spec fn hash_run(s: Seq<char>, i: int) -> nat
    decreases s.len() - i,
{
    if 0 <= i < s.len() && s[i] == '#' {
        1 + hash_run(s, i + 1)
    } else {
        0
    }
}

/// The longest run of `#` right after a `"` among the first `n` characters of `s`.
pub open spec fn longest_quote_run(s: Seq<char>, n: int) -> nat
    decreases n,
{
    if n <= 0 {
        0
    } else {
        let before = longest_quote_run(s, n - 1);
        if s[n - 1] == '"' && hash_run(s, n) > before {
            hash_run(s, n)
        } else {
            before
        }
    }
}

/// The number of `#` a raw string literal holding `s` is delimited with: none when `s` holds
/// neither `"` nor `#`, else one more than the longest run of `#` that follows a `"` in `s`.
pub open spec fn raw_hashes(s: Seq<char>) -> nat {
    if exists|i: int| 0 <= i < s.len() && (s[i] == '"' || s[i] == '#') {
        1 + longest_quote_run(s, s.len() as int)
    } else {
        0
    }
}

pub open spec fn hashes(n: nat) -> Seq<char> {
    Seq::new(n, |_i: int| '#')
}

/// The raw string literal `r#"s"#` of Rust source text, with as many `#` as `s` requires.
pub open spec fn raw_literal(s: Seq<char>) -> Seq<char> {
    seq!['r'] + hashes(raw_hashes(s)) + seq!['"'] + s + seq!['"'] + hashes(raw_hashes(s))
}

fn count_hashes(s: &str, len: usize, i: usize) -> (r: usize)
    requires
        len == s@.len(),
        i <= len,
    ensures
        r == hash_run(s@, i as int),
        i + r <= len,
{
    let mut j: usize = i;
    while j < len && s.get_char(j) == '#'
        invariant
            i <= j <= len,
            len == s@.len(),
            hash_run(s@, i as int) == (j - i) + hash_run(s@, j as int),
        decreases len - j,
    {
        j += 1;
    }
    j - i
}

/// Source text of a raw string literal that holds `s`.
pub fn raw_str_literal(s: &str) -> (r: String)
    ensures
        r@ == raw_literal(s@),
{
    let len = s.unicode_len();
    let mut longest: usize = 0;
    let mut special = false;
    let mut i: usize = 0;
    while i < len
        invariant
            i <= len,
            len == s@.len(),
            longest == longest_quote_run(s@, i as int),
            longest == 0 || longest < len,
            special == exists|j: int| 0 <= j < i && (s@[j] == '"' || s@[j] == '#'),
        decreases len - i,
    {
        let c = s.get_char(i);
        if c == '"' || c == '#' {
            special = true;
        }
        if c == '"' {
            let run = count_hashes(s, len, i + 1);
            if run > longest {
                longest = run;
            }
        }
        i += 1;
    }
    let n: usize = if special {
        longest + 1
    } else {
        0
    };
    let mut marks = String::new();
    let mut k: usize = 0;
    assert(marks@ =~= hashes(0));
    while k < n
        invariant
            k <= n,
            marks@ == hashes(k as nat),
        decreases n - k,
    {
        proof {
            reveal_strlit("#");
        }
        marks.append("#");
        k += 1;
        assert(marks@ =~= hashes(k as nat));
    }
    let mut r = String::from_str("r");
    r.append(marks.as_str());
    r.append("\"");
    r.append(s);
    r.append("\"");
    r.append(marks.as_str());
    proof {
        reveal_strlit("r");
        reveal_strlit("\"");
        assert(r@ =~= raw_literal(s@));
    }
    r
}

} // verus!
