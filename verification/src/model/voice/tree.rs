//! Searchable decision trees whose branches ask questions of a label.

use vstd::prelude::*;

use crate::model::parser::tree::Question;

verus! {

/// One node of a voice tree: a branch asking a question, or a leaf with a
/// PDF index.
#[derive(Debug, Clone)]
pub enum TreeNode {
    Node { question: Question, yes: usize, no: usize },
    Leaf { pdf_index: usize },
}

/// A decision tree for one HSMM state.
#[derive(Debug, Clone)]
pub struct Tree {
    pub state: usize,
    pub nodes: Vec<TreeNode>,
}

/// The walk from node `idx`: at a branch go to `yes` when the label answers
/// the question with yes, else to `no`; stop at a leaf.  `fuel` bounds the
/// steps; a walk that leaves the node list, or runs out of fuel, yields
/// `None`.
pub open spec fn walk_from(nodes: Seq<TreeNode>, idx: int, text: Seq<char>, fuel: nat) -> Option<
    usize,
>
    decreases fuel,
{
    if fuel == 0 {
        None
    } else if !(0 <= idx < nodes.len()) {
        None
    } else {
        match nodes[idx] {
            TreeNode::Leaf { pdf_index } => Some(pdf_index),
            TreeNode::Node { question, yes, no } => walk_from(
                nodes,
                if question.matches_spec(text) {
                    yes as int
                } else {
                    no as int
                },
                text,
                (fuel - 1) as nat,
            ),
        }
    }
}

/// The walk from the root.  A terminating walk never revisits a node, so
/// `nodes.len() + 1` steps decide it; a cyclic (malformed) tree yields
/// `None`.
pub open spec fn tree_search(nodes: Seq<TreeNode>, text: Seq<char>) -> Option<usize> {
    walk_from(nodes, 0, text, nodes.len() + 1)
}

impl Tree {
    /// Walks the tree for a label; `None` on a walk that leaves the node
    /// list or cycles (a malformed model).
    pub fn search_node(&self, label: &str) -> (r: Option<usize>)
        ensures
            r == tree_search(self.nodes@, label@),
    {
        let mut node_index: usize = 0;
        let mut fuel: usize = self.nodes.len();
        loop
            invariant
                walk_from(self.nodes@, node_index as int, label@, (fuel + 1) as nat) == tree_search(
                    self.nodes@,
                    label@,
                ),
            decreases fuel,
        {
            if node_index >= self.nodes.len() {
                return None;
            }
            match &self.nodes[node_index] {
                TreeNode::Leaf { pdf_index } => {
                    return Some(*pdf_index);
                },
                TreeNode::Node { question, yes, no } => {
                    let next = if question.matches(label) {
                        *yes
                    } else {
                        *no
                    };
                    proof {
                        assert(walk_from(self.nodes@, node_index as int, label@, (fuel + 1) as nat)
                            == walk_from(self.nodes@, next as int, label@, fuel as nat));
                    }
                    if fuel == 0 {
                        return None;
                    }
                    fuel -= 1;
                    node_index = next;
                },
            }
        }
    }
}

} // verus!
