//! Parser for the textual decision-tree sections of a voice file.
//!
//! The grammar is mirrored by spec functions over `Seq<char>`; each
//! executable parser is proved to return exactly what its spec function
//! says.  A parse fails softly (`NoMatch`) where another form may still
//! claim the input, and hard (`Malformed`) where the input committed to a
//! form and then broke off.

use vstd::prelude::*;

use crate::model::parser::base::{
    digit_pred, identifier_pred, is_digit_char, lemma_scan_end, pattern_pred, question_ident_pred,
    scan_digits, scan_end, scan_identifier, scan_pattern, scan_question_ident, scan_sep, sep_pred,
};
use crate::model::parser::ParseError;
use crate::model::pattern::{glob_match, glob_matches};

verus! {

broadcast use lemma_scan_end;

/// Entry points for parsing the tree sections of a voice file.
pub struct TreeParser;

impl TreeParser {
    /// An optional `-` followed by digits, as a number: `(rest, value)`.
    pub fn parse_signed_digits<'a>(i: &'a str) -> (r: Result<(&'a str, isize), ParseError>)
        ensures
            match spec_parse_signed_digits(i@, 0) {
                SpecParsed::Done { pos, value } => r matches Ok(v) && v.0@ == i@.subrange(
                    pos,
                    i@.len() as int,
                ) && v.1 as int == value,
                SpecParsed::NoMatch => r == Err::<(&'a str, isize), ParseError>(
                    ParseError::NoMatch,
                ),
                SpecParsed::Malformed => r == Err::<(&'a str, isize), ParseError>(
                    ParseError::Malformed,
                ),
            },
    {
        let n = i.unicode_len();
        match parse_signed_digits_at(i, 0) {
            Ok((p, v)) => Ok((i.substring_char(p, n), v)),
            Err(e) => Err(e),
        }
    }

    /// A non-empty question name: `(rest, name)`.
    pub fn parse_question_ident<'a>(i: &'a str) -> (r: Result<(&'a str, &'a str), ParseError>)
        ensures
            ({
                let e = scan_end(i@, 0, question_ident_pred());
                if e == 0 {
                    r == Err::<(&'a str, &'a str), ParseError>(ParseError::NoMatch)
                } else {
                    r matches Ok(v) && v.0@ == i@.subrange(e, i@.len() as int) && v.1@
                        == i@.subrange(0, e)
                }
            }),
    {
        let n = i.unicode_len();
        let e = scan_question_ident(i, 0);
        proof {
            lemma_scan_end(i@, 0, question_ident_pred());
        }
        if e == 0 {
            Err(ParseError::NoMatch)
        } else {
            Ok((i.substring_char(e, n), i.substring_char(0, e)))
        }
    }

    /// A whole question line: `(rest, (name, patterns))`.
    pub fn parse_question<'a>(i: &'a str) -> (r: Result<
        (&'a str, (&'a str, Vec<&'a str>)),
        ParseError,
    >)
        ensures
            match spec_parse_question(i@) {
                SpecParsed::Done { pos, value } => r matches Ok(v) && v.0@ == i@.subrange(
                    pos,
                    i@.len() as int,
                ) && v.1.0@ == value.0 && v.1.1.deep_view() == value.1,
                SpecParsed::NoMatch => r == Err::<(&'a str, (&'a str, Vec<&'a str>)), ParseError>(
                    ParseError::NoMatch,
                ),
                SpecParsed::Malformed => r == Err::<
                    (&'a str, (&'a str, Vec<&'a str>)),
                    ParseError,
                >(ParseError::Malformed),
            },
    {
        let n = i.unicode_len();
        match parse_question_at(i) {
            Ok((p, name, pats)) => Ok((i.substring_char(p, n), (name, pats))),
            Err(e) => Err(e),
        }
    }

    /// A whole branch line: `(rest, node)`.
    pub fn parse_node<'a>(i: &'a str) -> (r: Result<(&'a str, Node), ParseError>)
        ensures
            match spec_parse_node(i@, 0) {
                SpecParsed::Done { pos, value } => r matches Ok(v) && v.0@ == i@.subrange(
                    pos,
                    i@.len() as int,
                ) && v.1.id as int == value.id && v.1.question_name@ == value.question_name
                    && v.1.yes == value.yes && v.1.no == value.no,
                SpecParsed::NoMatch => r == Err::<(&'a str, Node), ParseError>(ParseError::NoMatch),
                SpecParsed::Malformed => r == Err::<(&'a str, Node), ParseError>(
                    ParseError::Malformed,
                ),
            },
    {
        let n = i.unicode_len();
        match parse_node_at(i, 0) {
            Ok((p, node)) => Ok((i.substring_char(p, n), node)),
            Err(e) => Err(e),
        }
    }

    /// A whole tree section: `(rest, tree)`.
    pub fn parse_tree<'a>(i: &'a str) -> (r: Result<(&'a str, Tree), ParseError>)
        ensures
            match spec_parse_tree(i@) {
                SpecParsed::Done { pos, value } => r matches Ok(v) && v.0@ == i@.subrange(
                    pos,
                    i@.len() as int,
                ) && v.1.pattern.deep_view() == value.pattern && v.1.state as int == value.state
                    && spec_image(v.1.nodes@) == value.nodes,
                SpecParsed::NoMatch => r == Err::<(&'a str, Tree), ParseError>(ParseError::NoMatch),
                SpecParsed::Malformed => r == Err::<(&'a str, Tree), ParseError>(
                    ParseError::Malformed,
                ),
            },
    {
        let n = i.unicode_len();
        match parse_tree_at(i) {
            Ok((p, tree)) => Ok((i.substring_char(p, n), tree)),
            Err(e) => Err(e),
        }
    }
}

/// A parsed decision tree: gating patterns, the state it serves, and its
/// branch nodes.
#[derive(Debug, Clone, PartialEq, Eq)]
pub struct Tree {
    pub pattern: Vec<String>,
    pub state: usize,
    pub nodes: Vec<Node>,
}

/// One branch line of a tree: its id, the question it asks, and where the
/// yes/no answers lead.
#[derive(Debug, Clone, PartialEq, Eq)]
pub struct Node {
    pub id: isize,
    pub question_name: String,
    pub yes: TreeIndex,
    pub no: TreeIndex,
}

/// Where a branch answer leads: another branch node (by id) or a PDF leaf.
#[derive(Debug, Clone, PartialEq, Eq, Structural)]
pub enum TreeIndex {
    Node(isize),
    Pdf(isize),
}

/// A question: a name and the label patterns that answer it with yes.
#[derive(Debug, PartialEq, Eq)]
pub struct Question {
    name: String,
    patterns: Vec<String>,
}

impl Question {
    /// The question's name, for specifications.
    pub closed spec fn spec_name(&self) -> Seq<char> {
        self.name@
    }

    /// The question's patterns, for specifications.
    pub closed spec fn spec_patterns(&self) -> Seq<Seq<char>> {
        self.patterns.deep_view()
    }

    pub fn new(name: String, patterns: Vec<String>) -> (r: Self)
        ensures
            r.spec_name() == name@,
            r.spec_patterns() == patterns.deep_view(),
    {
        Self { name, patterns }
    }

    /// The question's name.
    pub fn name(&self) -> (r: &String)
        ensures
            r@ == self.spec_name(),
    {
        &self.name
    }

    /// A label answers the question with yes when any pattern matches it.
    pub open spec fn matches_spec(&self, text: Seq<char>) -> bool {
        exists|i: int|
            0 <= i < self.spec_patterns().len() && glob_matches(
                #[trigger] self.spec_patterns()[i],
                text,
            )
    }

    /// Matches the question's patterns against a label.
    pub fn matches(&self, label: &str) -> (r: bool)
        ensures
            r == self.matches_spec(label@),
    {
        let mut i: usize = 0;
        while i < self.patterns.len()
            invariant
                i <= self.patterns@.len(),
                forall|k: int|
                    0 <= k < i ==> !glob_matches(#[trigger] self.spec_patterns()[k], label@),
            decreases self.patterns@.len() - i,
        {
            proof {
                assert(self.spec_patterns()[i as int] == self.patterns@[i as int]@);
            }
            if glob_match(self.patterns[i].as_str(), label) {
                return true;
            }
            i += 1;
        }
        false
    }
}

impl Clone for Question {
    fn clone(&self) -> (res: Self)
        ensures
            res.spec_name() == self.spec_name(),
            res.spec_patterns() == self.spec_patterns(),
    {
        let name = self.name.clone();
        let patterns = self.patterns.clone();
        proof {
            assert(patterns.deep_view() =~= self.patterns.deep_view());
        }
        Question { name, patterns }
    }
}

/// Outcome of a spec-level parse: a new position with a value, or one of
/// the two failure modes.
pub enum SpecParsed<V> {
    Done { pos: int, value: V },
    NoMatch,
    Malformed,
}

/// The number a digit string denotes in base ten.
pub open spec fn digits_val(s: Seq<char>) -> int
    decreases s.len(),
{
    if s.len() == 0 {
        0
    } else {
        digits_val(s.drop_last()) * 10 + (s.last() as u32 - 48)
    }
}

/// The maximal all-digit suffix of `s`.
pub open spec fn trailing_digits(s: Seq<char>) -> Seq<char>
    decreases s.len(),
{
    if s.len() == 0 {
        Seq::empty()
    } else if is_digit_char(s.last()) {
        trailing_digits(s.drop_last()).push(s.last())
    } else {
        Seq::empty()
    }
}

/// An optional `-` followed by one or more digits, denoting a number that
/// fits `isize`.
pub open spec fn spec_parse_signed_digits(s: Seq<char>, from: int) -> SpecParsed<int> {
    let neg = from < s.len() && s[from] == '-';
    let d0 = if neg {
        from + 1
    } else {
        from
    };
    let dend = scan_end(s, d0, digit_pred());
    if dend == d0 {
        SpecParsed::NoMatch
    } else {
        let m = digits_val(s.subrange(d0, dend));
        let v = if neg {
            -m
        } else {
            m
        };
        if isize::MIN <= v <= isize::MAX {
            SpecParsed::Done { pos: dend, value: v }
        } else {
            SpecParsed::NoMatch
        }
    }
}

/// An identifier whose trailing digit run denotes a PDF index that fits
/// `isize` (`dur_s2_230` denotes 230).
pub open spec fn spec_parse_pdf_index(s: Seq<char>, from: int) -> SpecParsed<TreeIndex> {
    let e = scan_end(s, from, identifier_pred());
    if e == from {
        SpecParsed::NoMatch
    } else {
        let ds = trailing_digits(s.subrange(from, e));
        if ds.len() == 0 {
            SpecParsed::NoMatch
        } else {
            let m = digits_val(ds);
            if m <= isize::MAX {
                SpecParsed::Done { pos: e, value: TreeIndex::Pdf(m as isize) }
            } else {
                SpecParsed::NoMatch
            }
        }
    }
}

/// A branch target: a signed node id, else an identifier naming a PDF.
pub open spec fn spec_parse_tree_index(s: Seq<char>, from: int) -> SpecParsed<TreeIndex> {
    match spec_parse_signed_digits(s, from) {
        SpecParsed::Done { pos, value } => SpecParsed::Done {
            pos,
            value: TreeIndex::Node(value as isize),
        },
        _ => spec_parse_pdf_index(s, from),
    }
}

/// A branch target, bare or quoted.  Failures are hard: a node line that
/// reached its branches is committed.
pub open spec fn spec_parse_branch(s: Seq<char>, from: int) -> SpecParsed<TreeIndex> {
    match spec_parse_tree_index(s, from) {
        SpecParsed::Done { pos, value } => SpecParsed::Done { pos, value },
        _ => {
            if from < s.len() && s[from] == '"' {
                match spec_parse_tree_index(s, from + 1) {
                    SpecParsed::Done { pos, value } => {
                        if pos < s.len() && s[pos] == '"' {
                            SpecParsed::Done { pos: pos + 1, value }
                        } else {
                            SpecParsed::Malformed
                        }
                    },
                    _ => SpecParsed::Malformed,
                }
            } else {
                SpecParsed::Malformed
            }
        },
    }
}

pub proof fn lemma_digits_val_mono(s: Seq<char>, j: int)
    requires
        0 <= j <= s.len(),
        forall|k: int| 0 <= k < s.len() ==> is_digit_char(#[trigger] s[k]),
    ensures
        digits_val(s) >= digits_val(s.subrange(0, j)),
        digits_val(s) >= 0,
    decreases s.len(),
{
    if s.len() == 0 {
        assert(s.subrange(0, 0) =~= s);
    } else {
        let t = s.drop_last();
        assert(forall|k: int| 0 <= k < t.len() ==> is_digit_char(#[trigger] t[k]));
        let j2 = if j <= s.len() - 1 {
            j
        } else {
            s.len() - 1
        };
        lemma_digits_val_mono(t, j2);
        if j <= s.len() - 1 {
            assert(s.subrange(0, j) =~= t.subrange(0, j));
        } else {
            assert(s.subrange(0, j) =~= s);
        }
    }
}

/// Reads the digit range `[a, b)` of `s`, negated: `Some(-value)` where the
/// magnitude fits, `None` where it exceeds `2^63`.
fn digits_to_neg_isize(s: &str, a: usize, b: usize) -> (r: Option<isize>)
    requires
        a <= b <= s@.len(),
        s@.len() <= usize::MAX,
        forall|k: int| a <= k < b ==> is_digit_char(#[trigger] s@[k]),
    ensures
        ({
            let m = digits_val(s@.subrange(a as int, b as int));
            match r {
                Some(v) => v as int == -m,
                None => m > -(isize::MIN as int),
            }
        }),
{
    let mut acc: isize = 0;
    let mut i: usize = a;
    while i < b
        invariant
            a <= i <= b <= s@.len(),
            s@.len() <= usize::MAX,
            forall|k: int| a <= k < b ==> is_digit_char(#[trigger] s@[k]),
            acc <= 0,
            acc as int == -digits_val(s@.subrange(a as int, i as int)),
        decreases b - i,
    {
        let c = s.get_char(i);
        let d = (c as u32) - 48;
        proof {
            assert(is_digit_char(s@[i as int]));
            assert(s@.subrange(a as int, i + 1).drop_last() =~= s@.subrange(a as int, i as int));
            assert(s@.subrange(a as int, i + 1).last() == s@[i as int]);
        }
        let stepped = match acc.checked_mul(10) {
            Some(x) => x.checked_sub(d as isize),
            None => None,
        };
        match stepped {
            Some(y) => {
                acc = y;
            },
            None => {
                proof {
                    let full = s@.subrange(a as int, b as int);
                    let pre = s@.subrange(a as int, i + 1);
                    assert(digits_val(pre) > -(isize::MIN as int));
                    assert(forall|k: int| 0 <= k < full.len() ==> is_digit_char(#[trigger] full[k]));
                    lemma_digits_val_mono(full, i + 1 - a);
                    assert(pre =~= full.subrange(0, i + 1 - a));
                }
                return None;
            },
        }
        i += 1;
    }
    proof {
        assert(s@.subrange(a as int, b as int) =~= s@.subrange(a as int, i as int));
    }
    Some(acc)
}

/// Executable form of `spec_parse_signed_digits`.
pub(crate) fn parse_signed_digits_at(s: &str, from: usize) -> (r: Result<(usize, isize), ParseError>)
    requires
        from <= s@.len(),
        s@.len() <= usize::MAX,
    ensures
        match spec_parse_signed_digits(s@, from as int) {
            SpecParsed::Done { pos, value } => r matches Ok(v) && v.0 as int == pos && v.1 as int
                == value,
            SpecParsed::NoMatch => r == Err::<(usize, isize), ParseError>(ParseError::NoMatch),
            SpecParsed::Malformed => r == Err::<(usize, isize), ParseError>(ParseError::Malformed),
        },
{
    let n = s.unicode_len();
    let neg = from < n && s.get_char(from) == '-';
    let d0 = if neg {
        from + 1
    } else {
        from
    };
    let dend = scan_digits(s, d0);
    proof {
        lemma_scan_end(s@, d0 as int, digit_pred());
    }
    if dend == d0 {
        return Err(ParseError::NoMatch);
    }
    match digits_to_neg_isize(s, d0, dend) {
        None => Err(ParseError::NoMatch),
        Some(acc) => {
            if neg {
                Ok((dend, acc))
            } else if acc == isize::MIN {
                Err(ParseError::NoMatch)
            } else {
                Ok((dend, -acc))
            }
        },
    }
}

/// Executable form of `spec_parse_pdf_index`.
pub(crate) fn parse_pdf_index_at(s: &str, from: usize) -> (r: Result<(usize, isize), ParseError>)
    requires
        from <= s@.len(),
        s@.len() <= usize::MAX,
    ensures
        match spec_parse_pdf_index(s@, from as int) {
            SpecParsed::Done { pos, value } => r matches Ok(v) && v.0 as int == pos && value
                == TreeIndex::Pdf(v.1),
            SpecParsed::NoMatch => r == Err::<(usize, isize), ParseError>(ParseError::NoMatch),
            SpecParsed::Malformed => r == Err::<(usize, isize), ParseError>(ParseError::Malformed),
        },
{
    let e = scan_identifier(s, from);
    if e == from {
        return Err(ParseError::NoMatch);
    }
    let mut rs: usize = from;
    let mut k: usize = from;
    proof {
        assert(s@.subrange(from as int, from as int) =~= Seq::<char>::empty());
    }
    while k < e
        invariant
            from <= rs <= k <= e <= s@.len(),
            s@.len() <= usize::MAX,
            trailing_digits(s@.subrange(from as int, k as int)) == s@.subrange(
                rs as int,
                k as int,
            ),
            forall|j: int| rs <= j < k ==> is_digit_char(#[trigger] s@[j]),
        decreases e - k,
    {
        let c = s.get_char(k);
        let u = c as u32;
        proof {
            assert(s@.subrange(from as int, k + 1).drop_last() =~= s@.subrange(
                from as int,
                k as int,
            ));
            assert(s@.subrange(from as int, k + 1).last() == s@[k as int]);
        }
        if 48 <= u && u <= 57 {
            proof {
                assert(s@.subrange(rs as int, k + 1) =~= s@.subrange(rs as int, k as int).push(
                    s@[k as int],
                ));
            }
        } else {
            rs = k + 1;
            proof {
                assert(s@.subrange(rs as int, rs as int) =~= Seq::<char>::empty());
            }
        }
        k += 1;
    }
    if rs == e {
        proof {
            assert(s@.subrange(rs as int, e as int) =~= Seq::<char>::empty());
        }
        return Err(ParseError::NoMatch);
    }
    match digits_to_neg_isize(s, rs, e) {
        None => Err(ParseError::NoMatch),
        Some(acc) => {
            if acc == isize::MIN {
                Err(ParseError::NoMatch)
            } else {
                Ok((e, -acc))
            }
        },
    }
}

/// Executable form of `spec_parse_tree_index`.
pub(crate) fn parse_tree_index_at(s: &str, from: usize) -> (r: Result<
    (usize, TreeIndex),
    ParseError,
>)
    requires
        from <= s@.len(),
        s@.len() <= usize::MAX,
    ensures
        match spec_parse_tree_index(s@, from as int) {
            SpecParsed::Done { pos, value } => r matches Ok(v) && v.0 as int == pos && v.1 == value,
            SpecParsed::NoMatch => r == Err::<(usize, TreeIndex), ParseError>(ParseError::NoMatch),
            SpecParsed::Malformed => r == Err::<(usize, TreeIndex), ParseError>(
                ParseError::Malformed,
            ),
        },
{
    match parse_signed_digits_at(s, from) {
        Ok((p, v)) => Ok((p, TreeIndex::Node(v))),
        Err(_) => match parse_pdf_index_at(s, from) {
            Ok((p, v)) => Ok((p, TreeIndex::Pdf(v))),
            Err(e) => Err(e),
        },
    }
}

/// Executable form of `spec_parse_branch`.
pub(crate) fn parse_branch_at(s: &str, from: usize) -> (r: Result<(usize, TreeIndex), ParseError>)
    requires
        from <= s@.len(),
        s@.len() <= usize::MAX,
    ensures
        match spec_parse_branch(s@, from as int) {
            SpecParsed::Done { pos, value } => r matches Ok(v) && v.0 as int == pos && v.1 == value
                && pos <= s@.len(),
            SpecParsed::NoMatch => r == Err::<(usize, TreeIndex), ParseError>(ParseError::NoMatch),
            SpecParsed::Malformed => r == Err::<(usize, TreeIndex), ParseError>(
                ParseError::Malformed,
            ),
        },
{
    let n = s.unicode_len();
    match parse_tree_index_at(s, from) {
        Ok(v) => Ok(v),
        Err(_) => {
            if from < n && s.get_char(from) == '"' {
                match parse_tree_index_at(s, from + 1) {
                    Ok((p, v)) => {
                        if p < n && s.get_char(p) == '"' {
                            Ok((p + 1, v))
                        } else {
                            Err(ParseError::Malformed)
                        }
                    },
                    Err(_) => Err(ParseError::Malformed),
                }
            } else {
                Err(ParseError::Malformed)
            }
        },
    }
}

/// One branch line: id, question name, yes target, no target.
pub open spec fn spec_parse_node(s: Seq<char>, from: int) -> SpecParsed<SpecNode> {
    let p0 = scan_end(s, from, sep_pred());
    match spec_parse_signed_digits(s, p0) {
        SpecParsed::Done { pos: p1, value: id } => {
            let p2 = scan_end(s, p1, sep_pred());
            if p2 == p1 {
                SpecParsed::NoMatch
            } else {
                let p3 = scan_end(s, p2, question_ident_pred());
                if p3 == p2 {
                    SpecParsed::NoMatch
                } else {
                    let p4 = scan_end(s, p3, sep_pred());
                    if p4 == p3 {
                        SpecParsed::NoMatch
                    } else {
                        match spec_parse_branch(s, p4) {
                            SpecParsed::Done { pos: p5, value: yes } => {
                                let p6 = scan_end(s, p5, sep_pred());
                                if p6 == p5 {
                                    SpecParsed::NoMatch
                                } else {
                                    match spec_parse_branch(s, p6) {
                                        SpecParsed::Done { pos: p7, value: no } => SpecParsed::Done {
                                            pos: p7,
                                            value: SpecNode {
                                                id,
                                                question_name: s.subrange(p2, p3),
                                                yes,
                                                no,
                                            },
                                        },
                                        _ => SpecParsed::Malformed,
                                    }
                                }
                            },
                            _ => SpecParsed::Malformed,
                        }
                    }
                }
            }
        },
        _ => SpecParsed::NoMatch,
    }
}

/// Spec-level image of a parsed `Node`.
pub struct SpecNode {
    pub id: int,
    pub question_name: Seq<char>,
    pub yes: TreeIndex,
    pub no: TreeIndex,
}

/// Executable form of `spec_parse_node`.
pub(crate) fn parse_node_at(s: &str, from: usize) -> (r: Result<(usize, Node), ParseError>)
    requires
        from <= s@.len(),
        s@.len() <= usize::MAX,
    ensures
        match spec_parse_node(s@, from as int) {
            SpecParsed::Done { pos, value } => r matches Ok(v) && v.0 as int == pos && v.1.id as int
                == value.id && v.1.question_name@ == value.question_name && v.1.yes == value.yes
                && v.1.no == value.no && from < pos <= s@.len(),
            SpecParsed::NoMatch => r == Err::<(usize, Node), ParseError>(ParseError::NoMatch),
            SpecParsed::Malformed => r == Err::<(usize, Node), ParseError>(ParseError::Malformed),
        },
{
    let p0 = scan_sep(s, from);
    let (p1, id) = match parse_signed_digits_at(s, p0) {
        Ok(v) => v,
        Err(_) => {
            return Err(ParseError::NoMatch);
        },
    };
    let p2 = scan_sep(s, p1);
    if p2 == p1 {
        return Err(ParseError::NoMatch);
    }
    let p3 = scan_question_ident(s, p2);
    if p3 == p2 {
        return Err(ParseError::NoMatch);
    }
    let p4 = scan_sep(s, p3);
    if p4 == p3 {
        return Err(ParseError::NoMatch);
    }
    let (p5, yes) = match parse_branch_at(s, p4) {
        Ok(v) => v,
        Err(_) => {
            return Err(ParseError::Malformed);
        },
    };
    let p6 = scan_sep(s, p5);
    if p6 == p5 {
        return Err(ParseError::NoMatch);
    }
    let (p7, no) = match parse_branch_at(s, p6) {
        Ok(v) => v,
        Err(_) => {
            return Err(ParseError::Malformed);
        },
    };
    let name = s.substring_char(p2, p3).to_owned();
    Ok((p7, Node { id, question_name: name, yes, no }))
}

/// A pattern in quotes, `"…"`, with at least one pattern character.
/// Failures are hard: the question's pattern list is committed.
pub open spec fn spec_quoted_pattern(s: Seq<char>, from: int) -> SpecParsed<Seq<char>> {
    if from < s.len() && s[from] == '"' {
        let e = scan_end(s, from + 1, pattern_pred());
        if e == from + 1 {
            SpecParsed::Malformed
        } else if e < s.len() && s[e] == '"' {
            SpecParsed::Done { pos: e + 1, value: s.subrange(from + 1, e) }
        } else {
            SpecParsed::Malformed
        }
    } else {
        SpecParsed::Malformed
    }
}

/// The quoted patterns that follow the first one, each after a comma and
/// optional whitespace.
pub open spec fn spec_question_patterns_rest(s: Seq<char>, from: int) -> SpecParsed<Seq<Seq<char>>>
    decreases s.len() - from,
    when 0 <= from <= s.len()
{
    if from < s.len() && s[from] == ',' {
        let w = scan_end(s, from + 1, sep_pred());
        match spec_quoted_pattern(s, w) {
            SpecParsed::Done { pos, value } => match spec_question_patterns_rest(s, pos) {
                SpecParsed::Done { pos: p2, value: vs } => SpecParsed::Done {
                    pos: p2,
                    value: seq![value] + vs,
                },
                SpecParsed::NoMatch => SpecParsed::NoMatch,
                SpecParsed::Malformed => SpecParsed::Malformed,
            },
            _ => SpecParsed::Malformed,
        }
    } else {
        SpecParsed::Done { pos: from, value: Seq::empty() }
    }
}

/// A whole question line: `QS name { "pat", "pat", … }`, yielding the name
/// and its patterns.
pub open spec fn spec_parse_question(s: Seq<char>) -> SpecParsed<(Seq<char>, Seq<Seq<char>>)> {
    if !(s.len() >= 2 && s[0] == 'Q' && s[1] == 'S') {
        SpecParsed::NoMatch
    } else {
        let q = scan_end(s, 2, sep_pred());
        if q == 2 {
            SpecParsed::NoMatch
        } else {
            let r = scan_end(s, q, question_ident_pred());
            if r == q {
                SpecParsed::NoMatch
            } else {
                let t = scan_end(s, r, sep_pred());
                if t == r {
                    SpecParsed::NoMatch
                } else if !(t < s.len() && s[t] == '{') {
                    SpecParsed::NoMatch
                } else {
                    let u = scan_end(s, t + 1, sep_pred());
                    match spec_quoted_pattern(s, u) {
                        SpecParsed::Done { pos, value } => match spec_question_patterns_rest(
                            s,
                            pos,
                        ) {
                            SpecParsed::Done { pos: p2, value: vs } => {
                                let z = scan_end(s, p2, sep_pred());
                                if z < s.len() && s[z] == '}' {
                                    SpecParsed::Done {
                                        pos: z + 1,
                                        value: (s.subrange(q, r), seq![value] + vs),
                                    }
                                } else {
                                    SpecParsed::NoMatch
                                }
                            },
                            _ => SpecParsed::Malformed,
                        },
                        _ => SpecParsed::Malformed,
                    }
                }
            }
        }
    }
}

/// Executable form of `spec_quoted_pattern`.
pub(crate) fn quoted_pattern_at<'a>(s: &'a str, from: usize) -> (r: Result<
    (usize, &'a str),
    ParseError,
>)
    requires
        from <= s@.len(),
        s@.len() <= usize::MAX,
    ensures
        match spec_quoted_pattern(s@, from as int) {
            SpecParsed::Done { pos, value } => r matches Ok(v) && v.0 as int == pos && v.1@ == value
                && from < pos <= s@.len(),
            SpecParsed::NoMatch => r == Err::<(usize, &'a str), ParseError>(ParseError::NoMatch),
            SpecParsed::Malformed => r == Err::<(usize, &'a str), ParseError>(
                ParseError::Malformed,
            ),
        },
{
    let n = s.unicode_len();
    if from < n && s.get_char(from) == '"' {
        let e = scan_pattern(s, from + 1);
        if e == from + 1 {
            Err(ParseError::Malformed)
        } else if e < n && s.get_char(e) == '"' {
            Ok(((e + 1), s.substring_char(from + 1, e)))
        } else {
            Err(ParseError::Malformed)
        }
    } else {
        Err(ParseError::Malformed)
    }
}

/// `spec_question_patterns_rest` starting at `cur` completes what started
/// at `start` with `acc` already gathered.
pub open spec fn question_rest_extends(
    s: Seq<char>,
    start: int,
    cur: int,
    acc: Seq<Seq<char>>,
) -> bool {
    match spec_question_patterns_rest(s, cur) {
        SpecParsed::Done { pos, value } => spec_question_patterns_rest(s, start)
            == SpecParsed::Done { pos, value: acc + value },
        SpecParsed::NoMatch => spec_question_patterns_rest(s, start) is NoMatch,
        SpecParsed::Malformed => spec_question_patterns_rest(s, start) is Malformed,
    }
}

/// How `spec_parse_question` ends once its opening (name and first quoted
/// pattern, ending at `p_first`) is fixed.
pub open spec fn question_suffix_shape(
    s: Seq<char>,
    name: Seq<char>,
    p_first: int,
    first: Seq<char>,
) -> bool {
    spec_parse_question(s) == (match spec_question_patterns_rest(s, p_first) {
        SpecParsed::Done { pos: p2, value: vs } => {
            let z = scan_end(s, p2, sep_pred());
            if z < s.len() && s[z] == '}' {
                SpecParsed::Done { pos: z + 1, value: (name, seq![first] + vs) }
            } else {
                SpecParsed::NoMatch
            }
        },
        _ => SpecParsed::Malformed,
    })
}

/// Executable form of `spec_parse_question`, yielding the end position, the
/// question name, and the patterns.
pub(crate) fn parse_question_at<'a>(s: &'a str) -> (r: Result<
    (usize, &'a str, Vec<&'a str>),
    ParseError,
>)
    requires
        s@.len() <= usize::MAX,
    ensures
        match spec_parse_question(s@) {
            SpecParsed::Done { pos, value } => r matches Ok(v) && v.0 as int == pos && v.1@
                == value.0 && v.2.deep_view() == value.1 && pos <= s@.len(),
            SpecParsed::NoMatch => r == Err::<(usize, &'a str, Vec<&'a str>), ParseError>(
                ParseError::NoMatch,
            ),
            SpecParsed::Malformed => r == Err::<(usize, &'a str, Vec<&'a str>), ParseError>(
                ParseError::Malformed,
            ),
        },
{
    let n = s.unicode_len();
    if !(n >= 2 && s.get_char(0) == 'Q' && s.get_char(1) == 'S') {
        return Err(ParseError::NoMatch);
    }
    let q = scan_sep(s, 2);
    if q == 2 {
        return Err(ParseError::NoMatch);
    }
    let r1 = scan_question_ident(s, q);
    if r1 == q {
        return Err(ParseError::NoMatch);
    }
    let t = scan_sep(s, r1);
    if t == r1 {
        return Err(ParseError::NoMatch);
    }
    if !(t < n && s.get_char(t) == '{') {
        return Err(ParseError::NoMatch);
    }
    let u = scan_sep(s, t + 1);
    let (p_first, first) = match quoted_pattern_at(s, u) {
        Ok(v) => v,
        Err(_) => {
            return Err(ParseError::Malformed);
        },
    };
    let mut pats: Vec<&str> = Vec::new();
    pats.push(first);
    let mut cur: usize = p_first;
    proof {
        assert(question_suffix_shape(
            s@,
            s@.subrange(q as int, r1 as int),
            p_first as int,
            first@,
        ));
        assert(pats.deep_view().skip(1) =~= Seq::<Seq<char>>::empty());
    }
    loop
        invariant
            cur <= s@.len(),
            s@.len() <= usize::MAX,
            n == s@.len(),
            q <= r1 <= n,
            pats.deep_view().len() >= 1,
            pats.deep_view()[0] == first@,
            question_suffix_shape(s@, s@.subrange(q as int, r1 as int), p_first as int, first@),
            question_rest_extends(s@, p_first as int, cur as int, pats.deep_view().skip(1)),
        ensures
            cur <= s@.len(),
            n == s@.len(),
            q <= r1 <= n,
            pats.deep_view().len() >= 1,
            pats.deep_view()[0] == first@,
            question_suffix_shape(s@, s@.subrange(q as int, r1 as int), p_first as int, first@),
            question_rest_extends(s@, p_first as int, cur as int, pats.deep_view().skip(1)),
            !(cur < s@.len() && s@[cur as int] == ','),
        decreases s@.len() - cur,
    {
        if !(cur < n && s.get_char(cur) == ',') {
            break ;
        }
        let w = scan_sep(s, cur + 1);
        let (p2, v) = match quoted_pattern_at(s, w) {
            Ok(v) => v,
            Err(_) => {
                return Err(ParseError::Malformed);
            },
        };
        let ghost acc_old = pats.deep_view().skip(1);
        pats.push(v);
        proof {
            assert(pats.deep_view().skip(1) =~= acc_old.push(v@));
            assert(acc_old.push(v@) =~= acc_old + seq![v@]);
            let rp2 = spec_question_patterns_rest(s@, p2 as int);
            assert(spec_question_patterns_rest(s@, cur as int) == (match rp2 {
                SpecParsed::Done { pos: pp, value: vs } => SpecParsed::Done::<Seq<Seq<char>>> {
                    pos: pp,
                    value: seq![v@] + vs,
                },
                SpecParsed::NoMatch => SpecParsed::NoMatch,
                SpecParsed::Malformed => SpecParsed::Malformed,
            }));
            assert(rp2 matches SpecParsed::Done { pos: pp, value: vs } ==> (acc_old + seq![v@]) + vs
                =~= acc_old + (seq![v@] + vs));
        }
        cur = p2;
    }
    proof {
        assert(spec_question_patterns_rest(s@, cur as int) == SpecParsed::Done::<Seq<Seq<char>>> {
            pos: cur as int,
            value: Seq::empty(),
        });
        assert(pats.deep_view().skip(1) + Seq::<Seq<char>>::empty() =~= pats.deep_view().skip(1));
        assert(pats.deep_view() =~= seq![first@] + pats.deep_view().skip(1));
    }
    let z = scan_sep(s, cur);
    if z < n && s.get_char(z) == '}' {
        Ok(((z + 1), s.substring_char(q, r1), pats))
    } else {
        Err(ParseError::NoMatch)
    }
}

/// The comma-separated bare patterns that follow the first one in a tree
/// header; stops (without failing) before a comma not followed by a pattern.
pub open spec fn spec_tree_patterns_rest(s: Seq<char>, from: int) -> (int, Seq<Seq<char>>)
    decreases s.len() - from,
    when 0 <= from <= s.len()
{
    if from < s.len() && s[from] == ',' {
        let e = scan_end(s, from + 1, pattern_pred());
        if e == from + 1 {
            (from, Seq::empty())
        } else {
            let (p, vs) = spec_tree_patterns_rest(s, e);
            (p, seq![s.subrange(from + 1, e)] + vs)
        }
    } else {
        (from, Seq::empty())
    }
}

/// The whole comma-separated pattern list of a tree header (possibly empty).
pub open spec fn spec_tree_pattern_list(s: Seq<char>, from: int) -> (int, Seq<Seq<char>>) {
    let e = scan_end(s, from, pattern_pred());
    if e == from {
        (from, Seq::empty())
    } else {
        let (p, vs) = spec_tree_patterns_rest(s, e);
        (p, seq![s.subrange(from, e)] + vs)
    }
}

/// `spec_tree_patterns_rest` starting at `cur` completes what started at
/// `start` with `acc` already gathered.
pub open spec fn tree_rest_extends(s: Seq<char>, start: int, cur: int, acc: Seq<Seq<char>>) -> bool {
    spec_tree_patterns_rest(s, start) == {
        let (p, vs) = spec_tree_patterns_rest(s, cur);
        (p, acc + vs)
    }
}

/// Executable form of `spec_tree_pattern_list`.
fn tree_pattern_list_at(s: &str, from: usize) -> (r: (usize, Vec<String>))
    requires
        from <= s@.len(),
        s@.len() <= usize::MAX,
    ensures
        ({
            let (pos, vs) = spec_tree_pattern_list(s@, from as int);
            r.0 as int == pos && r.1.deep_view() == vs && from <= pos <= s@.len()
        }),
{
    let n = s.unicode_len();
    let e = scan_pattern(s, from);
    let mut out: Vec<String> = Vec::new();
    if e == from {
        return (from, out);
    }
    out.push(s.substring_char(from, e).to_owned());
    let mut cur: usize = e;
    proof {
        assert(out.deep_view().skip(1) =~= Seq::<Seq<char>>::empty());
    }
    loop
        invariant
            e <= cur <= s@.len(),
            s@.len() <= usize::MAX,
            n == s@.len(),
            out.deep_view().len() >= 1,
            out.deep_view()[0] == s@.subrange(from as int, e as int),
            tree_rest_extends(s@, e as int, cur as int, out.deep_view().skip(1)),
        ensures
            e <= cur <= s@.len(),
            n == s@.len(),
            out.deep_view().len() >= 1,
            out.deep_view()[0] == s@.subrange(from as int, e as int),
            tree_rest_extends(s@, e as int, cur as int, out.deep_view().skip(1)),
            spec_tree_patterns_rest(s@, cur as int) == (cur as int, Seq::<Seq<char>>::empty()),
        decreases s@.len() - cur,
    {
        if !(cur < n && s.get_char(cur) == ',') {
            break ;
        }
        let e2 = scan_pattern(s, cur + 1);
        if e2 == cur + 1 {
            break ;
        }
        let ghost acc_old = out.deep_view().skip(1);
        out.push(s.substring_char(cur + 1, e2).to_owned());
        proof {
            assert(out.deep_view().skip(1) =~= acc_old.push(s@.subrange(cur + 1, e2 as int)));
            assert(acc_old.push(s@.subrange(cur + 1, e2 as int)) =~= acc_old + seq![
                s@.subrange(cur + 1, e2 as int),
            ]);
            let (pp, vs) = spec_tree_patterns_rest(s@, e2 as int);
            assert((acc_old + seq![s@.subrange(cur + 1, e2 as int)]) + vs =~= acc_old + (seq![
                s@.subrange(cur + 1, e2 as int),
            ] + vs));
        }
        cur = e2;
    }
    proof {
        let ghost acc = out.deep_view().skip(1);
        assert(acc + Seq::<Seq<char>>::empty() =~= acc);
        assert(out.deep_view() =~= seq![s@.subrange(from as int, e as int)] + acc);
    }
    (cur, out)
}

/// The spec-level image of a parsed node.
pub open spec fn spec_node_of(n: Node) -> SpecNode {
    SpecNode { id: n.id as int, question_name: n.question_name@, yes: n.yes, no: n.no }
}

/// The spec-level image of a parsed node list.
pub open spec fn spec_image(ns: Seq<Node>) -> Seq<SpecNode> {
    ns.map_values(|n: Node| spec_node_of(n))
}

proof fn lemma_parse_node_progress(s: Seq<char>, from: int)
    requires
        0 <= from <= s.len(),
    ensures
        spec_parse_node(s, from) matches SpecParsed::Done { pos, value } ==> from < pos <= s.len(),
{
    broadcast use lemma_scan_end;

}

/// The whitespace-separated nodes that follow the first one; stops
/// (without failing) where no further node begins, and fails hard where a
/// node line breaks off inside its branches.
pub open spec fn spec_node_list_rest(s: Seq<char>, from: int) -> SpecParsed<Seq<SpecNode>>
    decreases s.len() - from,
    when 0 <= from <= s.len()
    via spec_node_list_rest_decreases
{
    let w = scan_end(s, from, sep_pred());
    if w == from {
        SpecParsed::Done { pos: from, value: Seq::empty() }
    } else {
        match spec_parse_node(s, w) {
            SpecParsed::Done { pos, value } => match spec_node_list_rest(s, pos) {
                SpecParsed::Done { pos: p2, value: vs } => SpecParsed::Done {
                    pos: p2,
                    value: seq![value] + vs,
                },
                SpecParsed::NoMatch => SpecParsed::NoMatch,
                SpecParsed::Malformed => SpecParsed::Malformed,
            },
            SpecParsed::NoMatch => SpecParsed::Done { pos: from, value: Seq::empty() },
            SpecParsed::Malformed => SpecParsed::Malformed,
        }
    }
}

#[via_fn]
proof fn spec_node_list_rest_decreases(s: Seq<char>, from: int) {
    broadcast use lemma_scan_end;

    let w = scan_end(s, from, sep_pred());
    if 0 <= from <= s.len() && w != from {
        lemma_parse_node_progress(s, w);
    }
}

/// A whole node list: the first node (if any) and what follows.
pub open spec fn spec_node_list(s: Seq<char>, from: int) -> SpecParsed<Seq<SpecNode>> {
    match spec_parse_node(s, from) {
        SpecParsed::Done { pos, value } => match spec_node_list_rest(s, pos) {
            SpecParsed::Done { pos: p2, value: vs } => SpecParsed::Done {
                pos: p2,
                value: seq![value] + vs,
            },
            SpecParsed::NoMatch => SpecParsed::NoMatch,
            SpecParsed::Malformed => SpecParsed::Malformed,
        },
        SpecParsed::NoMatch => SpecParsed::Done { pos: from, value: Seq::empty() },
        SpecParsed::Malformed => SpecParsed::Malformed,
    }
}

/// `spec_node_list_rest` starting at `cur` completes what started at
/// `start` with `acc` already gathered.
pub open spec fn node_rest_extends(s: Seq<char>, start: int, cur: int, acc: Seq<SpecNode>) -> bool {
    match spec_node_list_rest(s, cur) {
        SpecParsed::Done { pos, value } => spec_node_list_rest(s, start) == SpecParsed::Done {
            pos,
            value: acc + value,
        },
        SpecParsed::NoMatch => spec_node_list_rest(s, start) is NoMatch,
        SpecParsed::Malformed => spec_node_list_rest(s, start) is Malformed,
    }
}

/// Executable form of `spec_node_list`.
#[verifier::rlimit(50)]
fn node_list_at(s: &str, from: usize) -> (r: Result<(usize, Vec<Node>), ParseError>)
    requires
        from <= s@.len(),
        s@.len() <= usize::MAX,
    ensures
        match spec_node_list(s@, from as int) {
            SpecParsed::Done { pos, value } => r matches Ok(v) && v.0 as int == pos && spec_image(
                v.1@,
            ) == value && from <= pos <= s@.len(),
            SpecParsed::NoMatch => r == Err::<(usize, Vec<Node>), ParseError>(ParseError::NoMatch),
            SpecParsed::Malformed => r == Err::<(usize, Vec<Node>), ParseError>(
                ParseError::Malformed,
            ),
        },
{
    let n = s.unicode_len();
    let mut nodes: Vec<Node> = Vec::new();
    let (p_first, first) = match parse_node_at(s, from) {
        Ok(v) => v,
        Err(ParseError::Malformed) => {
            return Err(ParseError::Malformed);
        },
        Err(ParseError::NoMatch) => {
            proof {
                assert(spec_image(nodes@) =~= Seq::<SpecNode>::empty());
                assert(seq![Seq::<SpecNode>::empty()].len() == 1);
            }
            return Ok((from, nodes));
        },
    };
    let ghost first_sn = spec_node_of(first);
    nodes.push(first);
    let mut cur: usize = p_first;
    proof {
        assert(spec_image(nodes@).skip(1) =~= Seq::<SpecNode>::empty());
        assert(spec_node_of(nodes@[0]) == first_sn);
    }
    loop
        invariant
            p_first <= cur <= s@.len(),
            s@.len() <= usize::MAX,
            n == s@.len(),
            nodes@.len() >= 1,
            spec_image(nodes@)[0] == first_sn,
            spec_parse_node(s@, from as int) matches SpecParsed::Done { pos, value } && pos
                == p_first as int && value == first_sn,
            from <= p_first,
            node_rest_extends(s@, p_first as int, cur as int, spec_image(nodes@).skip(1)),
        ensures
            p_first <= cur <= s@.len(),
            n == s@.len(),
            nodes@.len() >= 1,
            spec_image(nodes@)[0] == first_sn,
            spec_parse_node(s@, from as int) matches SpecParsed::Done { pos, value } && pos
                == p_first as int && value == first_sn,
            from <= p_first,
            node_rest_extends(s@, p_first as int, cur as int, spec_image(nodes@).skip(1)),
            spec_node_list_rest(s@, cur as int) == (SpecParsed::Done::<Seq<SpecNode>> {
                pos: cur as int,
                value: Seq::empty(),
            }),
        decreases s@.len() - cur,
    {
        let w = scan_sep(s, cur);
        if w == cur {
            break ;
        }
        match parse_node_at(s, w) {
            Err(ParseError::NoMatch) => {
                break ;
            },
            Err(ParseError::Malformed) => {
                return Err(ParseError::Malformed);
            },
            Ok((p2, nd)) => {
                let ghost acc_old = spec_image(nodes@).skip(1);
                let ghost sn2 = spec_node_of(nd);
                nodes.push(nd);
                proof {
                    assert(spec_image(nodes@) =~= spec_image(nodes@.drop_last()).push(sn2));
                    assert(spec_image(nodes@).skip(1) =~= acc_old.push(sn2));
                    assert(acc_old.push(sn2) =~= acc_old + seq![sn2]);
                    let rp2 = spec_node_list_rest(s@, p2 as int);
                    assert(spec_node_list_rest(s@, cur as int) == (match rp2 {
                        SpecParsed::Done { pos: pp, value: vs } => SpecParsed::Done::<
                            Seq<SpecNode>,
                        > { pos: pp, value: seq![sn2] + vs },
                        SpecParsed::NoMatch => SpecParsed::NoMatch,
                        SpecParsed::Malformed => SpecParsed::Malformed,
                    }));
                    assert(rp2 matches SpecParsed::Done { pos: pp, value: vs } ==> (acc_old + seq![
                        sn2,
                    ]) + vs =~= acc_old + (seq![sn2] + vs));
                }
                cur = p2;
            },
        }
    }
    proof {
        let ghost acc = spec_image(nodes@).skip(1);
        assert(acc + Seq::<SpecNode>::empty() =~= acc);
        assert(spec_image(nodes@) =~= seq![first_sn] + acc);
    }
    Ok((cur, nodes))
}

/// Spec-level image of a parsed `Tree`.
pub struct SpecTree {
    pub pattern: Seq<Seq<char>>,
    pub state: int,
    pub nodes: Seq<SpecNode>,
}

/// A whole tree section: `{patterns}[state]{nodes}`.  The state must be a
/// non-negative number that fits the machine's word.
pub open spec fn spec_parse_tree(s: Seq<char>) -> SpecParsed<SpecTree> {
    let p = scan_end(s, 0, sep_pred());
    if !(p < s.len() && s[p] == '{') {
        SpecParsed::NoMatch
    } else {
        let (lp, pats) = spec_tree_pattern_list(s, p + 1);
        if !(lp < s.len() && s[lp] == '}') {
            SpecParsed::NoMatch
        } else {
            let q = scan_end(s, lp + 1, sep_pred());
            if !(q < s.len() && s[q] == '[') {
                SpecParsed::NoMatch
            } else {
                match spec_parse_signed_digits(s, q + 1) {
                    SpecParsed::Done { pos: r1, value: state } => {
                        if !(r1 < s.len() && s[r1] == ']') {
                            SpecParsed::NoMatch
                        } else if !(0 <= state <= usize::MAX) {
                            SpecParsed::NoMatch
                        } else {
                            let r2 = scan_end(s, r1 + 1, sep_pred());
                            if !(r2 < s.len() && s[r2] == '{') {
                                SpecParsed::NoMatch
                            } else {
                                let r3 = scan_end(s, r2 + 1, sep_pred());
                                match spec_node_list(s, r3) {
                                    SpecParsed::Done { pos: r4, value: nodes } => {
                                        let r5 = scan_end(s, r4, sep_pred());
                                        if r5 < s.len() && s[r5] == '}' {
                                            SpecParsed::Done {
                                                pos: r5 + 1,
                                                value: SpecTree { pattern: pats, state, nodes },
                                            }
                                        } else {
                                            SpecParsed::NoMatch
                                        }
                                    },
                                    _ => SpecParsed::Malformed,
                                }
                            }
                        }
                    },
                    _ => SpecParsed::NoMatch,
                }
            }
        }
    }
}

/// Executable form of `spec_parse_tree`.
pub(crate) fn parse_tree_at(s: &str) -> (r: Result<(usize, Tree), ParseError>)
    requires
        s@.len() <= usize::MAX,
    ensures
        match spec_parse_tree(s@) {
            SpecParsed::Done { pos, value } => r matches Ok(v) && v.0 as int == pos
                && v.1.pattern.deep_view() == value.pattern && v.1.state as int == value.state
                && spec_image(v.1.nodes@) == value.nodes && pos <= s@.len(),
            SpecParsed::NoMatch => r == Err::<(usize, Tree), ParseError>(ParseError::NoMatch),
            SpecParsed::Malformed => r == Err::<(usize, Tree), ParseError>(ParseError::Malformed),
        },
{
    let n = s.unicode_len();
    let p = scan_sep(s, 0);
    if !(p < n && s.get_char(p) == '{') {
        return Err(ParseError::NoMatch);
    }
    let (lp, pats) = tree_pattern_list_at(s, p + 1);
    if !(lp < n && s.get_char(lp) == '}') {
        return Err(ParseError::NoMatch);
    }
    let q = scan_sep(s, lp + 1);
    if !(q < n && s.get_char(q) == '[') {
        return Err(ParseError::NoMatch);
    }
    let (r1, state) = match parse_signed_digits_at(s, q + 1) {
        Ok(v) => v,
        Err(_) => {
            return Err(ParseError::NoMatch);
        },
    };
    if !(r1 < n && s.get_char(r1) == ']') {
        return Err(ParseError::NoMatch);
    }
    if state < 0 {
        return Err(ParseError::NoMatch);
    }
    let r2 = scan_sep(s, r1 + 1);
    if !(r2 < n && s.get_char(r2) == '{') {
        return Err(ParseError::NoMatch);
    }
    let r3 = scan_sep(s, r2 + 1);
    let (r4, nodes) = match node_list_at(s, r3) {
        Ok(v) => v,
        Err(_) => {
            return Err(ParseError::Malformed);
        },
    };
    let r5 = scan_sep(s, r4);
    if r5 < n && s.get_char(r5) == '}' {
        Ok(((r5 + 1), Tree { pattern: pats, state: state as usize, nodes }))
    } else {
        Err(ParseError::NoMatch)
    }
}

} // verus!
