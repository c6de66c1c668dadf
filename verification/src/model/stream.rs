//! Per-stream decision-tree models over compiled label patterns.
//!
//! A `Tree` holds branch nodes carrying pattern lists and leaf nodes carrying
//! PDF indices; `Model` pairs the trees of all states with the PDF tables the
//! leaves point into.  The PDF entry type is a parameter: the numerical
//! content of a PDF is opaque to the index logic here.

use vstd::prelude::*;

use crate::model::pattern::{
    anchored_glob, compile_glob_source, contains_shape, glob_matches, is_contains_pattern, is_star,
    regex_compile_check, regex_compiles, regex_is_match, regex_match,
};
use crate::model::ModelError;
use crate::text::{seq_contains, str_contains, str_equal};

verus! {

/// A compiled label pattern: `*`, containment of a literal, or an anchored
/// regex (held as its pattern text).
#[derive(Debug, Clone)]
pub enum Pattern {
    All,
    Contains(String),
    Regex(String),
}

impl Pattern {
    /// What this compiled pattern matches.
    pub open spec fn matches_spec(&self, text: Seq<char>) -> bool {
        match self {
            Pattern::All => true,
            Pattern::Contains(s) => seq_contains(text, s@),
            Pattern::Regex(src) => regex_match(src@, text),
        }
    }

    /// Compiles a raw pattern string, picking the cheapest matching shape.
    ///
    /// Fails only where the fallback regex does not compile; the error then
    /// carries the offending pattern.
    pub fn from_pattern_string(pattern: &str) -> (r: Result<Pattern, ModelError>)
        ensures
            r matches Ok(p) ==> forall|t: Seq<char>| #[trigger]
                p.matches_spec(t) == glob_matches(pattern@, t),
            pattern@ == seq!['*'] ==> r == Ok::<Pattern, ModelError>(Pattern::All),
            is_contains_pattern(pattern@) ==> (r matches Ok(p) && p matches Pattern::Contains(s)
                && s@ == pattern@.subrange(1, pattern@.len() - 1)),
            (pattern@ != seq!['*'] && !is_contains_pattern(pattern@) && regex_compiles(
                anchored_glob(pattern@),
            )) ==> (r matches Ok(p) && p matches Pattern::Regex(src) && src@ == anchored_glob(
                pattern@,
            )),
            (pattern@ != seq!['*'] && !is_contains_pattern(pattern@) && !regex_compiles(
                anchored_glob(pattern@),
            )) ==> (r matches Err(e) && e matches ModelError::InvalidPattern(s) && s@
                == pattern@),
    {
        if is_star(pattern) {
            Ok(Pattern::All)
        } else if contains_shape(pattern) {
            let n = pattern.unicode_len();
            let inner = pattern.substring_char(1, n - 1);
            Ok(Pattern::Contains(inner.to_owned()))
        } else {
            let src = compile_glob_source(pattern);
            if regex_compile_check(src.as_str()) {
                Ok(Pattern::Regex(src))
            } else {
                Err(ModelError::InvalidPattern(pattern.to_owned()))
            }
        }
    }

    /// Matches this compiled pattern against a label.
    pub fn is_match(&self, label: &str) -> (r: bool)
        ensures
            r == self.matches_spec(label@),
    {
        match self {
            Pattern::All => true,
            Pattern::Contains(s) => str_contains(label, s.as_str()),
            Pattern::Regex(src) => regex_is_match(src.as_str(), label),
        }
    }
}

impl PartialEq for Pattern {
    fn eq(&self, other: &Self) -> (r: bool) {
        match (self, other) {
            (Pattern::All, Pattern::All) => true,
            (Pattern::Contains(a), Pattern::Contains(b)) => str_equal(a.as_str(), b.as_str()),
            (Pattern::Regex(a), Pattern::Regex(b)) => str_equal(a.as_str(), b.as_str()),
            _ => false,
        }
    }
}

impl vstd::std_specs::cmp::PartialEqSpecImpl for Pattern {
    open spec fn obeys_eq_spec() -> bool {
        true
    }

    open spec fn eq_spec(&self, other: &Self) -> bool {
        match (self, other) {
            (Pattern::All, Pattern::All) => true,
            (Pattern::Contains(a), Pattern::Contains(b)) => a@ == b@,
            (Pattern::Regex(a), Pattern::Regex(b)) => a@ == b@,
            _ => false,
        }
    }
}

/// Some pattern of the list matches `text`.
pub open spec fn any_matches(patterns: Seq<Pattern>, text: Seq<char>) -> bool {
    exists|i: int| 0 <= i < patterns.len() && (#[trigger] patterns[i]).matches_spec(text)
}

fn patterns_match(patterns: &Vec<Pattern>, label: &str) -> (r: bool)
    ensures
        r == any_matches(patterns@, label@),
{
    let mut i: usize = 0;
    while i < patterns.len()
        invariant
            i <= patterns@.len(),
            forall|k: int| 0 <= k < i ==> !(#[trigger] patterns@[k]).matches_spec(label@),
        decreases patterns@.len() - i,
    {
        if patterns[i].is_match(label) {
            return true;
        }
        i += 1;
    }
    false
}

/// One node of a decision tree: a branch with its patterns and the indices
/// of the yes/no children, or a leaf with a PDF index.
#[derive(Debug, Clone)]
pub enum TreeNode {
    Node { patterns: Vec<Pattern>, yes: usize, no: usize },
    Leaf { pdf_index: usize },
}

/// The walk from node `idx`: at a branch go to `yes` when any pattern
/// matches, else to `no`; stop at a leaf.  `fuel` bounds the steps; a walk
/// that leaves the node list, or runs out of fuel, yields `None`.
pub open spec fn walk_from(nodes: Seq<TreeNode>, idx: int, text: Seq<char>, fuel: nat) -> Option<
    usize,
>
    decreases fuel,
{
    if fuel == 0 {
        None
    } else if !(0 <= idx < nodes.len()) {
        None
    } else {
        match nodes[idx] {
            TreeNode::Leaf { pdf_index } => Some(pdf_index),
            TreeNode::Node { patterns, yes, no } => walk_from(
                nodes,
                if any_matches(patterns@, text) {
                    yes as int
                } else {
                    no as int
                },
                text,
                (fuel - 1) as nat,
            ),
        }
    }
}

/// The walk from the root.  A terminating walk never revisits a node, so
/// `nodes.len() + 1` steps decide it; a cyclic (malformed) tree yields
/// `None`.
pub open spec fn tree_search(nodes: Seq<TreeNode>, text: Seq<char>) -> Option<usize> {
    walk_from(nodes, 0, text, nodes.len() + 1)
}

/// A decision tree for one HSMM state, together with the patterns gating
/// which labels the tree serves.
#[derive(Debug, Clone)]
pub struct Tree {
    pub state: usize,
    pub patterns: Vec<Pattern>,
    pub nodes: Vec<TreeNode>,
}

impl Tree {
    /// Whether any gating pattern of this tree matches the label.
    pub fn matches_pattern(&self, string: &str) -> (r: bool)
        ensures
            r == any_matches(self.patterns@, string@),
    {
        patterns_match(&self.patterns, string)
    }

    /// Walks the tree for a label; `None` on a walk that leaves the node
    /// list or cycles (a malformed model).
    pub fn search_node(&self, string: &str) -> (r: Option<usize>)
        ensures
            r == tree_search(self.nodes@, string@),
    {
        let mut node_index: usize = 0;
        let mut fuel: usize = self.nodes.len();
        loop
            invariant
                walk_from(self.nodes@, node_index as int, string@, (fuel + 1) as nat)
                    == tree_search(self.nodes@, string@),
            decreases fuel,
        {
            if node_index >= self.nodes.len() {
                return None;
            }
            match &self.nodes[node_index] {
                TreeNode::Leaf { pdf_index } => {
                    return Some(*pdf_index);
                },
                TreeNode::Node { patterns, yes, no } => {
                    let next = if patterns_match(patterns, string) {
                        *yes
                    } else {
                        *no
                    };
                    proof {
                        assert(walk_from(self.nodes@, node_index as int, string@, (fuel + 1) as nat)
                            == walk_from(self.nodes@, next as int, string@, fuel as nat));
                    }
                    if fuel == 0 {
                        return None;
                    }
                    fuel -= 1;
                    node_index = next;
                },
            }
        }
    }
}

/// The tree serves this state and its gating patterns match the label.
pub open spec fn tree_matches(t: Tree, state_index: usize, text: Seq<char>) -> bool {
    t.state == state_index && any_matches(t.patterns@, text)
}

/// Index of the first tree serving `state_index` whose gating patterns
/// match `text`.
pub open spec fn spec_find_tree(trees: Seq<Tree>, state_index: usize, text: Seq<char>) -> Option<
    int,
>
    decreases trees.len(),
{
    if trees.len() == 0 {
        None
    } else if tree_matches(trees[0], state_index, text) {
        Some(0)
    } else {
        match spec_find_tree(trees.drop_first(), state_index, text) {
            Some(i) => Some(i + 1),
            None => None,
        }
    }
}

proof fn lemma_find_tree_bounds(trees: Seq<Tree>, state_index: usize, text: Seq<char>)
    ensures
        spec_find_tree(trees, state_index, text) matches Some(i) ==> 0 <= i < trees.len(),
    decreases trees.len(),
{
    if trees.len() > 0 && !tree_matches(trees[0], state_index, text) {
        lemma_find_tree_bounds(trees.drop_first(), state_index, text);
    }
}

proof fn lemma_find_tree_prefix(trees: Seq<Tree>, state_index: usize, text: Seq<char>, i: int)
    requires
        0 <= i <= trees.len(),
        forall|j: int| 0 <= j < i ==> !tree_matches(#[trigger] trees[j], state_index, text),
    ensures
        spec_find_tree(trees, state_index, text) == match spec_find_tree(
            trees.skip(i),
            state_index,
            text,
        ) {
            Some(k) => Some(k + i),
            None => None::<int>,
        },
    decreases i,
{
    if i == 0 {
        assert(trees.skip(0) =~= trees);
    } else {
        assert(!tree_matches(trees[0], state_index, text));
        assert(trees.skip(i) =~= trees.drop_first().skip(i - 1));
        assert(forall|j: int|
            0 <= j < i - 1 ==> !tree_matches(#[trigger] trees.drop_first()[j], state_index, text));
        lemma_find_tree_prefix(trees.drop_first(), state_index, text, i - 1);
    }
}

/// The pair an index lookup returns: the selected tree's index shifted by 2
/// (`None` where no tree matched and tree 0 was the fallback), and the PDF
/// index the walk of the selected tree reached.
pub open spec fn spec_get_index(trees: Seq<Tree>, state_index: usize, text: Seq<char>) -> (
    Option<int>,
    Option<usize>,
) {
    let ti = spec_find_tree(trees, state_index, text);
    let sel = match ti {
        Some(i) => trees[i],
        None => trees[0],
    };
    (
        match ti {
            Some(i) => Some(i + 2),
            None => None::<int>,
        },
        tree_search(sel.nodes@, text),
    )
}

/// Decision trees of all states plus the PDF tables their leaves point into.
/// `P` is the PDF entry type; its content is opaque to the lookup logic.
#[derive(Debug, Clone)]
pub struct Model<P> {
    trees: Vec<Tree>,
    pdf: Vec<Vec<P>>,
}

impl<P> Model<P> {
    /// The trees, for specification purposes.
    pub closed spec fn spec_trees(&self) -> Seq<Tree> {
        self.trees@
    }

    /// The PDF tables, for specification purposes.
    pub closed spec fn spec_pdf(&self) -> Seq<Seq<P>> {
        self.pdf@.map_values(|v: Vec<P>| v@)
    }

    pub fn new(trees: Vec<Tree>, pdf: Vec<Vec<P>>) -> (r: Self)
        ensures
            r.spec_trees() == trees@,
            r.spec_pdf() == pdf@.map_values(|v: Vec<P>| v@),
    {
        Self { trees, pdf }
    }

    fn find_tree_index(&self, state_index: usize, string: &str) -> (r: Option<usize>)
        ensures
            match r {
                Some(i) => spec_find_tree(self.spec_trees(), state_index, string@) == Some(i as int)
                    && i < self.spec_trees().len(),
                None => spec_find_tree(self.spec_trees(), state_index, string@) == None::<int>,
            },
    {
        let mut i: usize = 0;
        while i < self.trees.len()
            invariant
                i <= self.spec_trees().len(),
                forall|j: int|
                    0 <= j < i ==> !tree_matches(
                        #[trigger] self.spec_trees()[j],
                        state_index,
                        string@,
                    ),
            decreases self.spec_trees().len() - i,
        {
            let t = &self.trees[i];
            if t.state == state_index && t.matches_pattern(string) {
                proof {
                    lemma_find_tree_prefix(self.spec_trees(), state_index, string@, i as int);
                    assert(self.spec_trees().skip(i as int)[0] == self.spec_trees()[i as int]);
                }
                return Some(i);
            }
            i += 1;
        }
        proof {
            lemma_find_tree_prefix(
                self.spec_trees(),
                state_index,
                string@,
                self.spec_trees().len() as int,
            );
            assert(self.spec_trees().skip(self.spec_trees().len() as int) =~= Seq::<Tree>::empty());
        }
        None
    }

    /// Index of tree and PDF for a label in a state.
    ///
    /// The tree index is shifted by 2 where a gating tree matched; `None`
    /// means tree 0 served as fallback.  The PDF index is what the walk of
    /// the selected tree returned.
    pub fn get_index(&self, state_index: usize, string: &str) -> (r: (Option<usize>, Option<usize>))
        requires
            self.spec_trees().len() > 0,
            self.spec_trees().len() < usize::MAX,
        ensures
            ({
                let (sti, spi) = spec_get_index(self.spec_trees(), state_index, string@);
                &&& match (r.0, sti) {
                    (Some(a), Some(b)) => a as int == b,
                    (None, None) => true,
                    _ => false,
                }
                &&& r.1 == spi
            }),
    {
        let tree_index = self.find_tree_index(state_index, string);
        let tree = match tree_index {
            Some(idx) => &self.trees[idx],
            None => &self.trees[0],
        };
        let pdf_index = tree.search_node(string);
        (
            match tree_index {
                Some(index) => Some(index + 2),
                None => None,
            },
            pdf_index,
        )
    }

    /// The PDF entry that `get_index` points at.
    ///
    /// The caller owes a label that reaches a gating tree and a leaf, with
    /// indices inside the PDF table; on such inputs the entry is returned by
    /// reference.
    pub fn get_parameter(&self, state_index: usize, string: &str) -> (r: &P)
        requires
            self.spec_trees().len() > 0,
            self.spec_trees().len() < usize::MAX,
            spec_get_index(self.spec_trees(), state_index, string@).0 is Some,
            spec_get_index(self.spec_trees(), state_index, string@).1 is Some,
            ({
                let ti = spec_get_index(self.spec_trees(), state_index, string@).0->Some_0;
                let pi = spec_get_index(self.spec_trees(), state_index, string@).1->Some_0;
                &&& ti - 2 < self.spec_pdf().len()
                &&& 1 <= pi
                &&& pi - 1 < self.spec_pdf()[ti - 2].len()
            }),
        ensures
            ({
                let ti = spec_get_index(self.spec_trees(), state_index, string@).0->Some_0;
                let pi = spec_get_index(self.spec_trees(), state_index, string@).1->Some_0;
                *r == self.spec_pdf()[ti - 2][pi - 1 as int]
            }),
    {
        let (tree_index, pdf_index) = self.get_index(state_index, string);
        proof {
            lemma_find_tree_bounds(self.spec_trees(), state_index, string@);
        }
        match (tree_index, pdf_index) {
            (Some(ti), Some(pi)) => &self.pdf[ti - 2][pi - 1],
            _ => vstd::pervasive::unreached(),
        }
    }
}

/// Shape and flags of one stream of a voice.
#[derive(Debug, Clone, Default, PartialEq, Eq)]
pub struct StreamModelMetadata {
    pub vector_length: usize,
    pub num_windows: usize,
    pub is_msd: bool,
    pub use_gv: bool,
    pub option: Vec<String>,
}

} // verus!
