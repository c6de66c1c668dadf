//! Character classes of the tree grammar and scanners over them.
//!
//! Each scanner takes the longest prefix (from a given position) whose
//! characters satisfy one class; `scan_end` is the common specification.

use vstd::prelude::*;

use crate::model::parser::ParseError;

verus! {

/// Whitespace between tokens: space or newline.
pub open spec fn is_separator_char(c: char) -> bool {
    c == ' ' || c == '\n'
}

/// An ASCII character.
pub open spec fn is_ascii_char(c: char) -> bool {
    c as u32 <= 127
}

/// An ASCII decimal digit.
pub open spec fn is_digit_char(c: char) -> bool {
    48 <= c as u32 <= 57
}

/// An ASCII letter or digit.
pub open spec fn is_ascii_alnum_char(c: char) -> bool {
    is_digit_char(c) || (65 <= c as u32 <= 90) || (97 <= c as u32 <= 122)
}

/// A character of an identifier: ASCII letter, digit or underscore.
pub open spec fn is_identifier_char(c: char) -> bool {
    is_ascii_alnum_char(c) || c == '_'
}

/// A symbol that may stand in a full-context label pattern.
pub open spec fn is_label_symbol_char(c: char) -> bool {
    c == '!' || c == '#' || c == '%' || c == '&' || c == '+' || c == '-' || c == '/' || c == ':'
        || c == '=' || c == '@' || c == '^' || c == '_' || c == '|'
}

/// A character of a pattern: alphanumeric, wildcard, or label symbol.
pub open spec fn is_pattern_char(c: char) -> bool {
    is_ascii_char(c) && (is_ascii_alnum_char(c) || c == '*' || c == '?' || is_label_symbol_char(c))
}

/// A character a single text line may hold: ASCII other than newline.
pub open spec fn is_ascii_line_char(c: char) -> bool {
    is_ascii_char(c) && c != '\n'
}

/// A character of a question name: ASCII other than space and newline.
pub open spec fn is_question_ident_char(c: char) -> bool {
    is_ascii_char(c) && c != ' ' && c != '\n'
}

/// First position at or after `from` whose character fails `pred` (the
/// length of `s` where none does).
pub open spec fn scan_end(s: Seq<char>, from: int, pred: spec_fn(char) -> bool) -> int
    decreases s.len() - from,
    when 0 <= from <= s.len()
{
    if from >= s.len() {
        from
    } else if pred(s[from]) {
        scan_end(s, from + 1, pred)
    } else {
        from
    }
}

/// Bounds and meaning of `scan_end`: every character before it satisfies
/// `pred`, and the one at it (if any) does not.
pub broadcast proof fn lemma_scan_end(s: Seq<char>, from: int, pred: spec_fn(char) -> bool)
    ensures
        0 <= from <= s.len() ==> {
            let e = #[trigger] scan_end(s, from, pred);
            &&& from <= e <= s.len()
            &&& forall|k: int| from <= k < e ==> pred(s[k])
            &&& e < s.len() ==> !pred(s[e])
        },
    decreases s.len() - from,
{
    if 0 <= from < s.len() && pred(s[from]) {
        lemma_scan_end(s, from + 1, pred);
    }
}

/// The separator-class predicate, for specifications.
pub open spec fn sep_pred() -> spec_fn(char) -> bool {
    |c: char| is_separator_char(c)
}

/// The identifier-class predicate, for specifications.
pub open spec fn identifier_pred() -> spec_fn(char) -> bool {
    |c: char| is_identifier_char(c)
}

/// The pattern-class predicate, for specifications.
pub open spec fn pattern_pred() -> spec_fn(char) -> bool {
    |c: char| is_pattern_char(c)
}

/// The line-class predicate, for specifications.
pub open spec fn ascii_line_pred() -> spec_fn(char) -> bool {
    |c: char| is_ascii_line_char(c)
}

/// The question-name-class predicate, for specifications.
pub open spec fn question_ident_pred() -> spec_fn(char) -> bool {
    |c: char| is_question_ident_char(c)
}

/// The digit-class predicate, for specifications.
pub open spec fn digit_pred() -> spec_fn(char) -> bool {
    |c: char| is_digit_char(c)
}

/// Scans separators from `from`.
pub(crate) fn scan_sep(s: &str, from: usize) -> (r: usize)
    requires
        from <= s@.len(),
        s@.len() <= usize::MAX,
    ensures
        r == scan_end(s@, from as int, sep_pred()),
{
    let n = s.unicode_len();
    let mut i: usize = from;
    while i < n
        invariant
            from <= i <= n,
            n == s@.len(),
            scan_end(s@, from as int, sep_pred()) == scan_end(s@, i as int, sep_pred()),
        decreases n - i,
    {
        let c = s.get_char(i);
        if !(c == ' ' || c == '\n') {
            return i;
        }
        i += 1;
    }
    i
}

/// Scans identifier characters from `from`.
pub(crate) fn scan_identifier(s: &str, from: usize) -> (r: usize)
    requires
        from <= s@.len(),
        s@.len() <= usize::MAX,
    ensures
        r == scan_end(s@, from as int, identifier_pred()),
{
    let n = s.unicode_len();
    let mut i: usize = from;
    while i < n
        invariant
            from <= i <= n,
            n == s@.len(),
            scan_end(s@, from as int, identifier_pred()) == scan_end(s@, i as int, identifier_pred()),
        decreases n - i,
    {
        let c = s.get_char(i);
        let u = c as u32;
        if !((48 <= u && u <= 57) || (65 <= u && u <= 90) || (97 <= u && u <= 122) || c == '_') {
            return i;
        }
        i += 1;
    }
    i
}

/// Scans pattern characters from `from`.
pub(crate) fn scan_pattern(s: &str, from: usize) -> (r: usize)
    requires
        from <= s@.len(),
        s@.len() <= usize::MAX,
    ensures
        r == scan_end(s@, from as int, pattern_pred()),
{
    let n = s.unicode_len();
    let mut i: usize = from;
    while i < n
        invariant
            from <= i <= n,
            n == s@.len(),
            scan_end(s@, from as int, pattern_pred()) == scan_end(s@, i as int, pattern_pred()),
        decreases n - i,
    {
        let c = s.get_char(i);
        let u = c as u32;
        let alnum = (48 <= u && u <= 57) || (65 <= u && u <= 90) || (97 <= u && u <= 122);
        let symbol = c == '!' || c == '#' || c == '%' || c == '&' || c == '+' || c == '-' || c
            == '/' || c == ':' || c == '=' || c == '@' || c == '^' || c == '_' || c == '|';
        if !(u <= 127 && (alnum || c == '*' || c == '?' || symbol)) {
            return i;
        }
        i += 1;
    }
    i
}

/// Scans line characters (ASCII, no newline) from `from`.
pub(crate) fn scan_ascii_line(s: &str, from: usize) -> (r: usize)
    requires
        from <= s@.len(),
        s@.len() <= usize::MAX,
    ensures
        r == scan_end(s@, from as int, ascii_line_pred()),
{
    let n = s.unicode_len();
    let mut i: usize = from;
    while i < n
        invariant
            from <= i <= n,
            n == s@.len(),
            scan_end(s@, from as int, ascii_line_pred()) == scan_end(s@, i as int, ascii_line_pred()),
        decreases n - i,
    {
        let c = s.get_char(i);
        if !((c as u32) <= 127 && c != '\n') {
            return i;
        }
        i += 1;
    }
    i
}

/// Scans question-name characters from `from`.
pub(crate) fn scan_question_ident(s: &str, from: usize) -> (r: usize)
    requires
        from <= s@.len(),
        s@.len() <= usize::MAX,
    ensures
        r == scan_end(s@, from as int, question_ident_pred()),
{
    let n = s.unicode_len();
    let mut i: usize = from;
    while i < n
        invariant
            from <= i <= n,
            n == s@.len(),
            scan_end(s@, from as int, question_ident_pred()) == scan_end(
                s@,
                i as int,
                question_ident_pred(),
            ),
        decreases n - i,
    {
        let c = s.get_char(i);
        if !((c as u32) <= 127 && c != ' ' && c != '\n') {
            return i;
        }
        i += 1;
    }
    i
}

/// Scans digits from `from`.
pub(crate) fn scan_digits(s: &str, from: usize) -> (r: usize)
    requires
        from <= s@.len(),
        s@.len() <= usize::MAX,
    ensures
        r == scan_end(s@, from as int, digit_pred()),
{
    let n = s.unicode_len();
    let mut i: usize = from;
    while i < n
        invariant
            from <= i <= n,
            n == s@.len(),
            scan_end(s@, from as int, digit_pred()) == scan_end(s@, i as int, digit_pred()),
        decreases n - i,
    {
        let c = s.get_char(i);
        let u = c as u32;
        if !(48 <= u && u <= 57) {
            return i;
        }
        i += 1;
    }
    i
}

/// Splits off the (possibly empty) separator prefix: `(rest, taken)`.
pub fn sp<'a>(i: &'a str) -> (r: (&'a str, &'a str))
    ensures
        ({
            let e = scan_end(i@, 0, sep_pred());
            r.0@ == i@.subrange(e, i@.len() as int) && r.1@ == i@.subrange(0, e)
        }),
{
    let n = i.unicode_len();
    let e = scan_sep(i, 0);
    proof {
        lemma_scan_end(i@, 0, sep_pred());
    }
    (i.substring_char(e, n), i.substring_char(0, e))
}

/// Splits off a non-empty separator prefix: `(rest, taken)`.
pub fn sp1<'a>(i: &'a str) -> (r: Result<(&'a str, &'a str), ParseError>)
    ensures
        ({
            let e = scan_end(i@, 0, sep_pred());
            if e == 0 {
                r == Err::<(&'a str, &'a str), ParseError>(ParseError::NoMatch)
            } else {
                r matches Ok(v) && v.0@ == i@.subrange(e, i@.len() as int) && v.1@ == i@.subrange(
                    0,
                    e,
                )
            }
        }),
{
    let n = i.unicode_len();
    let e = scan_sep(i, 0);
    proof {
        lemma_scan_end(i@, 0, sep_pred());
    }
    if e == 0 {
        Err(ParseError::NoMatch)
    } else {
        Ok((i.substring_char(e, n), i.substring_char(0, e)))
    }
}

/// Splits off a non-empty identifier prefix: `(rest, taken)`.
pub fn parse_identifier<'a>(i: &'a str) -> (r: Result<(&'a str, &'a str), ParseError>)
    ensures
        ({
            let e = scan_end(i@, 0, identifier_pred());
            if e == 0 {
                r == Err::<(&'a str, &'a str), ParseError>(ParseError::NoMatch)
            } else {
                r matches Ok(v) && v.0@ == i@.subrange(e, i@.len() as int) && v.1@ == i@.subrange(
                    0,
                    e,
                )
            }
        }),
{
    let n = i.unicode_len();
    let e = scan_identifier(i, 0);
    proof {
        lemma_scan_end(i@, 0, identifier_pred());
    }
    if e == 0 {
        Err(ParseError::NoMatch)
    } else {
        Ok((i.substring_char(e, n), i.substring_char(0, e)))
    }
}

/// Splits off a non-empty pattern prefix: `(rest, taken)`.
pub fn parse_pattern<'a>(i: &'a str) -> (r: Result<(&'a str, &'a str), ParseError>)
    ensures
        ({
            let e = scan_end(i@, 0, pattern_pred());
            if e == 0 {
                r == Err::<(&'a str, &'a str), ParseError>(ParseError::NoMatch)
            } else {
                r matches Ok(v) && v.0@ == i@.subrange(e, i@.len() as int) && v.1@ == i@.subrange(
                    0,
                    e,
                )
            }
        }),
{
    let n = i.unicode_len();
    let e = scan_pattern(i, 0);
    proof {
        lemma_scan_end(i@, 0, pattern_pred());
    }
    if e == 0 {
        Err(ParseError::NoMatch)
    } else {
        Ok((i.substring_char(e, n), i.substring_char(0, e)))
    }
}

/// Splits off the (possibly empty) single-line ASCII prefix: `(rest, taken)`.
pub fn parse_ascii<'a>(i: &'a str) -> (r: (&'a str, &'a str))
    ensures
        ({
            let e = scan_end(i@, 0, ascii_line_pred());
            r.0@ == i@.subrange(e, i@.len() as int) && r.1@ == i@.subrange(0, e)
        }),
{
    let n = i.unicode_len();
    let e = scan_ascii_line(i, 0);
    proof {
        lemma_scan_end(i@, 0, ascii_line_pred());
    }
    (i.substring_char(e, n), i.substring_char(0, e))
}

/// Like `parse_ascii`, but hands the taken prefix out as an owned `String`.
pub fn parse_ascii_to_string<'a>(i: &'a str) -> (r: (&'a str, String))
    ensures
        ({
            let e = scan_end(i@, 0, ascii_line_pred());
            r.0@ == i@.subrange(e, i@.len() as int) && r.1@ == i@.subrange(0, e)
        }),
{
    let (rest, taken) = parse_ascii(i);
    (rest, taken.to_owned())
}

} // verus!
