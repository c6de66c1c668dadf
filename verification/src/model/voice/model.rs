//! Lookup of PDF parameters through the trees of a loaded voice.
//!
//! Unlike the stream models, a voice tree carries no gating patterns: the
//! first tree serving the requested state is taken, and tree 0 is the
//! fallback.  The PDF entry type is a parameter: the numerical content of a
//! PDF is opaque to the index logic here.

use vstd::prelude::*;

use crate::model::voice::tree::{tree_search, Tree};

verus! {

/// Index of the first tree serving `state_index`.
pub open spec fn spec_find_tree(trees: Seq<Tree>, state_index: usize) -> Option<int>
    decreases trees.len(),
{
    if trees.len() == 0 {
        None
    } else if trees[0].state == state_index {
        Some(0)
    } else {
        match spec_find_tree(trees.drop_first(), state_index) {
            Some(i) => Some(i + 1),
            None => None,
        }
    }
}

proof fn lemma_find_tree_bounds(trees: Seq<Tree>, state_index: usize)
    ensures
        spec_find_tree(trees, state_index) matches Some(i) ==> 0 <= i < trees.len(),
    decreases trees.len(),
{
    if trees.len() > 0 && trees[0].state != state_index {
        lemma_find_tree_bounds(trees.drop_first(), state_index);
    }
}

proof fn lemma_find_tree_prefix(trees: Seq<Tree>, state_index: usize, i: int)
    requires
        0 <= i <= trees.len(),
        forall|j: int| 0 <= j < i ==> (#[trigger] trees[j]).state != state_index,
    ensures
        spec_find_tree(trees, state_index) == match spec_find_tree(trees.skip(i), state_index) {
            Some(k) => Some(k + i),
            None => None::<int>,
        },
    decreases i,
{
    if i == 0 {
        assert(trees.skip(0) =~= trees);
    } else {
        assert(trees[0].state != state_index);
        assert(trees.skip(i) =~= trees.drop_first().skip(i - 1));
        assert(forall|j: int|
            0 <= j < i - 1 ==> (#[trigger] trees.drop_first()[j]).state != state_index);
        lemma_find_tree_prefix(trees.drop_first(), state_index, i - 1);
    }
}

/// The pair an index lookup returns: the selected tree's index shifted by 2
/// (`None` where no tree serves the state and tree 0 was the fallback), and
/// the PDF index the walk of the selected tree reached.
pub open spec fn spec_get_index(trees: Seq<Tree>, state_index: usize, text: Seq<char>) -> (
    Option<int>,
    Option<usize>,
) {
    let ti = spec_find_tree(trees, state_index);
    let sel = match ti {
        Some(i) => trees[i],
        None => trees[0],
    };
    (
        match ti {
            Some(i) => Some(i + 2),
            None => None::<int>,
        },
        tree_search(sel.nodes@, text),
    )
}

/// Decision trees of all states plus the PDF tables their leaves point into.
#[derive(Debug, Clone)]
pub struct Model<P> {
    trees: Vec<Tree>,
    pdf: Vec<Vec<P>>,
}

impl<P> Model<P> {
    /// The trees, for specification purposes.
    pub closed spec fn spec_trees(&self) -> Seq<Tree> {
        self.trees@
    }

    /// The PDF tables, for specification purposes.
    pub closed spec fn spec_pdf(&self) -> Seq<Seq<P>> {
        self.pdf@.map_values(|v: Vec<P>| v@)
    }

    pub fn new(trees: Vec<Tree>, pdf: Vec<Vec<P>>) -> (r: Self)
        ensures
            r.spec_trees() == trees@,
            r.spec_pdf() == pdf@.map_values(|v: Vec<P>| v@),
    {
        Self { trees, pdf }
    }

    fn find_tree_index(&self, state_index: usize) -> (r: Option<usize>)
        ensures
            match r {
                Some(i) => spec_find_tree(self.spec_trees(), state_index) == Some(i as int) && i
                    < self.spec_trees().len(),
                None => spec_find_tree(self.spec_trees(), state_index) == None::<int>,
            },
    {
        let mut i: usize = 0;
        while i < self.trees.len()
            invariant
                i <= self.spec_trees().len(),
                forall|j: int|
                    0 <= j < i ==> (#[trigger] self.spec_trees()[j]).state != state_index,
            decreases self.spec_trees().len() - i,
        {
            if self.trees[i].state == state_index {
                proof {
                    lemma_find_tree_prefix(self.spec_trees(), state_index, i as int);
                    assert(self.spec_trees().skip(i as int)[0] == self.spec_trees()[i as int]);
                }
                return Some(i);
            }
            i += 1;
        }
        proof {
            lemma_find_tree_prefix(self.spec_trees(), state_index, self.spec_trees().len() as int);
            assert(self.spec_trees().skip(self.spec_trees().len() as int) =~= Seq::<Tree>::empty());
        }
        None
    }

    /// Index of tree and PDF for a label in a state.
    ///
    /// The tree index is shifted by 2 where a tree serves the state; `None`
    /// means tree 0 served as fallback.  The PDF index is what the walk of
    /// the selected tree returned.
    pub fn get_index(&self, state_index: usize, label: &str) -> (r: (Option<usize>, Option<usize>))
        requires
            self.spec_trees().len() > 0,
            self.spec_trees().len() < usize::MAX,
        ensures
            ({
                let (sti, spi) = spec_get_index(self.spec_trees(), state_index, label@);
                &&& match (r.0, sti) {
                    (Some(a), Some(b)) => a as int == b,
                    (None, None) => true,
                    _ => false,
                }
                &&& r.1 == spi
            }),
    {
        let tree_index = self.find_tree_index(state_index);
        let tree = match tree_index {
            Some(idx) => &self.trees[idx],
            None => &self.trees[0],
        };
        let pdf_index = tree.search_node(label);
        (
            match tree_index {
                Some(index) => Some(index + 2),
                None => None,
            },
            pdf_index,
        )
    }

    /// The PDF entry that `get_index` points at.
    ///
    /// The caller owes a label that reaches a tree and a leaf, with indices
    /// inside the PDF table; on such inputs the entry is returned by
    /// reference.
    pub fn get_parameter(&self, state_index: usize, label: &str) -> (r: &P)
        requires
            self.spec_trees().len() > 0,
            self.spec_trees().len() < usize::MAX,
            spec_get_index(self.spec_trees(), state_index, label@).0 is Some,
            spec_get_index(self.spec_trees(), state_index, label@).1 is Some,
            ({
                let ti = spec_get_index(self.spec_trees(), state_index, label@).0->Some_0;
                let pi = spec_get_index(self.spec_trees(), state_index, label@).1->Some_0;
                &&& ti - 2 < self.spec_pdf().len()
                &&& 1 <= pi
                &&& pi - 1 < self.spec_pdf()[ti - 2].len()
            }),
        ensures
            ({
                let ti = spec_get_index(self.spec_trees(), state_index, label@).0->Some_0;
                let pi = spec_get_index(self.spec_trees(), state_index, label@).1->Some_0;
                *r == self.spec_pdf()[ti - 2][pi - 1 as int]
            }),
    {
        let (tree_index, pdf_index) = self.get_index(state_index, label);
        proof {
            lemma_find_tree_bounds(self.spec_trees(), state_index);
        }
        match (tree_index, pdf_index) {
            (Some(ti), Some(pi)) => &self.pdf[ti - 2][pi - 1],
            _ => vstd::pervasive::unreached(),
        }
    }
}

} // verus!
