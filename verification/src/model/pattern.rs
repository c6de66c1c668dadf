//! Semantics of label patterns.
//!
//! A pattern is a string of literal characters and the wildcards `*` (any
//! sequence) and `?` (any single character).  Three shapes are told apart:
//! the bare `*`, which matches everything; `*s*` with no wildcard inside,
//! which matches labels containing `s`; and everything else, which is matched
//! by an anchored regular expression built from the pattern (`+`, `^` and `|`
//! escaped, `*` turned into `.*`, `?` into `.`).

use vstd::prelude::*;

use crate::text::{seq_contains, str_contains};

verus! {

/// A character the pattern grammar treats as a wildcard.
pub open spec fn is_wildcard(c: char) -> bool {
    c == '*' || c == '?'
}

/// Some character of `p` is a wildcard.
pub open spec fn has_wildcard(p: Seq<char>) -> bool {
    exists|i: int| 0 <= i < p.len() && is_wildcard(#[trigger] p[i])
}

/// `p` is `*s*` for some `s` free of further wildcards (`s` may be empty).
pub open spec fn is_contains_pattern(p: Seq<char>) -> bool {
    &&& p.len() >= 2
    &&& p[0] == '*'
    &&& p[p.len() - 1] == '*'
    &&& !has_wildcard(p.subrange(1, p.len() - 1))
}

/// The regex fragment standing for one pattern character.
pub open spec fn escape_char(c: char) -> Seq<char> {
    if c == '+' {
        seq!['\\', '+']
    } else if c == '^' {
        seq!['\\', '^']
    } else if c == '|' {
        seq!['\\', '|']
    } else if c == '*' {
        seq!['.', '*']
    } else if c == '?' {
        seq!['.']
    } else {
        seq![c]
    }
}

/// The regex text standing for a whole pattern, character by character.
pub open spec fn escape_glob(p: Seq<char>) -> Seq<char>
    decreases p.len(),
{
    if p.len() == 0 {
        Seq::empty()
    } else {
        escape_char(p[0]) + escape_glob(p.drop_first())
    }
}

/// The anchored regex text `^…$` standing for a whole pattern.
pub open spec fn anchored_glob(p: Seq<char>) -> Seq<char> {
    seq!['^'] + escape_glob(p) + seq!['$']
}

/// What `regex::Regex::is_match` returns for a regex built from `pattern`
/// on `text` (false where `pattern` does not compile).
pub uninterp spec fn regex_match(pattern: Seq<char>, text: Seq<char>) -> bool;

/// Whether `regex::Regex::new` accepts `pattern`.
pub uninterp spec fn regex_compiles(pattern: Seq<char>) -> bool;

/// Relies on `regex::Regex::new`: whether a pattern text compiles is a
/// function of the pattern text alone.
#[verifier::external_body]
pub(crate) fn regex_compile_check(pattern: &str) -> (r: bool)
    ensures
        r == regex_compiles(pattern@),
{
    regex::Regex::new(pattern).is_ok()
}

/// Relies on `regex::Regex::new` and `regex::Regex::is_match`: the verdict of
/// a regex on a text is a function of the regex's pattern text and the text
/// alone; a pattern that does not compile matches nothing.
#[verifier::external_body]
pub(crate) fn regex_is_match(pattern: &str, text: &str) -> (r: bool)
    ensures
        r == regex_match(pattern@, text@),
{
    match regex::Regex::new(pattern) {
        Ok(re) => re.is_match(text),
        Err(_) => false,
    }
}

/// What a raw pattern string means: `*` matches everything, `*s*` means
/// containment, anything else goes through the anchored regex.
pub open spec fn glob_matches(p: Seq<char>, text: Seq<char>) -> bool {
    if p == seq!['*'] {
        true
    } else if is_contains_pattern(p) {
        seq_contains(text, p.subrange(1, p.len() - 1))
    } else {
        regex_match(anchored_glob(p), text)
    }
}

/// Law: the pattern `*` matches every label.
pub proof fn lemma_star_matches_every_label(text: Seq<char>)
    ensures
        glob_matches(seq!['*'], text),
{
}

proof fn lemma_escape_glob_push(p: Seq<char>, c: char)
    ensures
        escape_glob(p.push(c)) == escape_glob(p) + escape_char(c),
    decreases p.len(),
{
    if p.len() == 0 {
        assert(p.push(c)[0] == c);
        assert(p.push(c).drop_first() =~= Seq::<char>::empty());
        assert(escape_glob(Seq::<char>::empty()) =~= Seq::<char>::empty());
        assert(escape_glob(p.push(c)) =~= escape_char(c));
        assert(escape_glob(p) + escape_char(c) =~= escape_char(c));
    } else {
        assert(p.push(c)[0] == p[0]);
        assert(p.push(c).drop_first() =~= p.drop_first().push(c));
        lemma_escape_glob_push(p.drop_first(), c);
        assert(escape_char(p[0]) + (escape_glob(p.drop_first()) + escape_char(c)) =~= (escape_char(
            p[0],
        ) + escape_glob(p.drop_first())) + escape_char(c));
    }
}

/// `p` equals the one-character pattern `*`.
pub(crate) fn is_star(pattern: &str) -> (r: bool)
    ensures
        r == (pattern@ == seq!['*']),
{
    let n = pattern.unicode_len();
    if n == 1 && pattern.get_char(0) == '*' {
        proof {
            assert(pattern@ =~= seq!['*']);
        }
        true
    } else {
        proof {
            if pattern@ == seq!['*'] {
                assert(pattern@.len() == 1);
            }
        }
        false
    }
}

/// Some character of `pattern` in `[from, to)` is a wildcard.
pub(crate) fn range_has_wildcard(pattern: &str, from: usize, to: usize) -> (r: bool)
    requires
        from <= to <= pattern@.len(),
        pattern@.len() <= usize::MAX,
    ensures
        r == has_wildcard(pattern@.subrange(from as int, to as int)),
{
    let mut i: usize = from;
    while i < to
        invariant
            from <= i <= to <= pattern@.len(),
            pattern@.len() <= usize::MAX,
            forall|k: int| from <= k < i ==> !is_wildcard(#[trigger] pattern@[k]),
        decreases to - i,
    {
        let c = pattern.get_char(i);
        if c == '*' || c == '?' {
            proof {
                assert(pattern@.subrange(from as int, to as int)[i - from] == pattern@[i as int]);
            }
            return true;
        }
        i += 1;
    }
    proof {
        assert forall|j: int| 0 <= j < to - from implies !is_wildcard(
            #[trigger] pattern@.subrange(from as int, to as int)[j],
        ) by {
            assert(pattern@.subrange(from as int, to as int)[j] == pattern@[from + j]);
        }
    }
    false
}

/// `pattern` has the `*s*` shape with no wildcard inside.
pub(crate) fn contains_shape(pattern: &str) -> (r: bool)
    ensures
        r == is_contains_pattern(pattern@),
{
    let n = pattern.unicode_len();
    if n >= 2 && pattern.get_char(0) == '*' && pattern.get_char(n - 1) == '*'
        && !range_has_wildcard(pattern, 1, n - 1) {
        true
    } else {
        false
    }
}

/// Builds the anchored regex text standing for `pattern`.
pub(crate) fn compile_glob_source(pattern: &str) -> (r: String)
    ensures
        r@ == anchored_glob(pattern@),
{
    let n = pattern.unicode_len();
    let mut out = String::new();
    out.append("^");
    proof {
        reveal_strlit("^");
        assert(out@ =~= seq!['^'] + escape_glob(pattern@.subrange(0, 0)));
    }
    let mut i: usize = 0;
    while i < n
        invariant
            i <= n,
            n == pattern@.len(),
            out@ == seq!['^'] + escape_glob(pattern@.subrange(0, i as int)),
        decreases n - i,
    {
        let c = pattern.get_char(i);
        if c == '+' {
            out.append("\\+");
            proof {
                reveal_strlit("\\+");
                assert("\\+"@ =~= escape_char(pattern@[i as int]));
            }
        } else if c == '^' {
            out.append("\\^");
            proof {
                reveal_strlit("\\^");
                assert("\\^"@ =~= escape_char(pattern@[i as int]));
            }
        } else if c == '|' {
            out.append("\\|");
            proof {
                reveal_strlit("\\|");
                assert("\\|"@ =~= escape_char(pattern@[i as int]));
            }
        } else if c == '*' {
            out.append(".*");
            proof {
                reveal_strlit(".*");
                assert(".*"@ =~= escape_char(pattern@[i as int]));
            }
        } else if c == '?' {
            out.append(".");
            proof {
                reveal_strlit(".");
                assert("."@ =~= escape_char(pattern@[i as int]));
            }
        } else {
            let piece = pattern.substring_char(i, i + 1);
            out.append(piece);
            proof {
                assert(piece@ =~= seq![pattern@[i as int]]);
                assert(piece@ =~= escape_char(pattern@[i as int]));
            }
        }
        proof {
            assert(pattern@.subrange(0, i + 1) =~= pattern@.subrange(0, i as int).push(
                pattern@[i as int],
            ));
            lemma_escape_glob_push(pattern@.subrange(0, i as int), pattern@[i as int]);
            assert(out@ =~= seq!['^'] + escape_glob(pattern@.subrange(0, i + 1)));
        }
        i += 1;
    }
    out.append("$");
    proof {
        reveal_strlit("$");
        assert(pattern@.subrange(0, n as int) =~= pattern@);
        assert(out@ =~= anchored_glob(pattern@));
    }
    out
}

/// Matches one raw pattern string against a label.
pub fn glob_match(pattern: &str, label: &str) -> (r: bool)
    ensures
        r == glob_matches(pattern@, label@),
{
    if is_star(pattern) {
        true
    } else if contains_shape(pattern) {
        let n = pattern.unicode_len();
        let inner = pattern.substring_char(1, n - 1);
        str_contains(label, inner)
    } else {
        let src = compile_glob_source(pattern);
        regex_is_match(src.as_str(), label)
    }
}

} // verus!
