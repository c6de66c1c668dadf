//! Conversion of freshly parsed trees into searchable voice trees.
//!
//! A parsed tree refers to its nodes by signed ids and to PDFs by index;
//! the searchable form uses positions in one node list, with the PDF
//! leaves gathered at the end in ascending order of PDF index.  Branch
//! targets resolve a node id to the last node carrying it, and a PDF index
//! to the first leaf carrying it.

use vstd::prelude::*;

use crate::model::parser::tree::{Node, Question, Tree, TreeIndex};
use crate::model::voice::tree as vtree;
use crate::text::str_equal;

verus! {

/// The PDF ids a branch node contributes, yes side first.
pub open spec fn pdf_contrib(n: Node) -> Seq<isize> {
    (match n.yes {
        TreeIndex::Pdf(id) => seq![id],
        _ => Seq::empty(),
    }) + (match n.no {
        TreeIndex::Pdf(id) => seq![id],
        _ => Seq::empty(),
    })
}

/// All PDF ids the branch nodes refer to, in node order, duplicates kept.
pub open spec fn collected_pdf_ids(nodes: Seq<Node>) -> Seq<isize>
    decreases nodes.len(),
{
    if nodes.len() == 0 {
        Seq::empty()
    } else {
        pdf_contrib(nodes[0]) + collected_pdf_ids(nodes.drop_first())
    }
}

proof fn lemma_collected_push(nodes: Seq<Node>, x: Node)
    ensures
        collected_pdf_ids(nodes.push(x)) == collected_pdf_ids(nodes) + pdf_contrib(x),
    decreases nodes.len(),
{
    if nodes.len() == 0 {
        assert(nodes.push(x)[0] == x);
        assert(nodes.push(x).drop_first() =~= Seq::<Node>::empty());
        assert(collected_pdf_ids(Seq::<Node>::empty()) =~= Seq::<isize>::empty());
        assert(collected_pdf_ids(nodes.push(x)) =~= pdf_contrib(x));
        assert(collected_pdf_ids(nodes) + pdf_contrib(x) =~= pdf_contrib(x));
    } else {
        assert(nodes.push(x)[0] == nodes[0]);
        assert(nodes.push(x).drop_first() =~= nodes.drop_first().push(x));
        lemma_collected_push(nodes.drop_first(), x);
        assert(pdf_contrib(nodes[0]) + (collected_pdf_ids(nodes.drop_first()) + pdf_contrib(x))
            =~= (pdf_contrib(nodes[0]) + collected_pdf_ids(nodes.drop_first())) + pdf_contrib(x));
    }
}

/// The PDF id a leaf node carries (0 for a branch node).
pub open spec fn leaf_isize(n: vtree::TreeNode) -> isize {
    match n {
        vtree::TreeNode::Leaf { pdf_index } => pdf_index as isize,
        vtree::TreeNode::Node { .. } => 0,
    }
}

/// The branch target `t` resolves `idx`: a node id names the last branch
/// node carrying it, a PDF id names the first slot of `leaves` carrying it
/// (offset past the branch nodes).
#[verifier::opaque]
pub open spec fn idx_ok(orig: Seq<Node>, leaves: Seq<isize>, idx: TreeIndex, t: int) -> bool {
    match idx {
        TreeIndex::Node(id) => 0 <= t < orig.len() && orig[t].id == id && (forall|k: int|
            t < k < orig.len() ==> (#[trigger] orig[k]).id != id),
        TreeIndex::Pdf(id) => orig.len() <= t < orig.len() + leaves.len() && leaves[t - orig.len()]
            == id && (forall|k: int| 0 <= k < t - orig.len() ==> leaves[k] != id),
    }
}

/// The converted branch node carries the first question of `questions`
/// named by the source node, and resolved yes/no targets.
#[verifier::opaque]
pub open spec fn branch_ok(
    orig: Seq<Node>,
    questions: Seq<Question>,
    leaves: Seq<isize>,
    on: Node,
    out_n: vtree::TreeNode,
) -> bool {
    &&& out_n matches vtree::TreeNode::Node { question, yes, no } && (exists|qi: int|
        0 <= qi < questions.len() && (#[trigger] questions[qi]).spec_name() == on.question_name@
            && (forall|j: int| 0 <= j < qi ==> questions[j].spec_name() != on.question_name@)
            && question.spec_name() == questions[qi].spec_name() && question.spec_patterns()
            == questions[qi].spec_patterns()) && idx_ok(orig, leaves, on.yes, yes as int) && idx_ok(
        orig,
        leaves,
        on.no,
        no as int,
    )
}

/// The full (non-leaf-only) form of a converted tree: the leaf section
/// holds the collected PDF ids in ascending order, and the branches
/// resolve as `branch_ok` says.  Kept opaque so that callers pay for the
/// definition only where they reveal it.
#[verifier::opaque]
pub open spec fn converted_full(orig: Tree, questions: Seq<Question>, r: vtree::Tree) -> bool {
    let ids = collected_pdf_ids(orig.nodes@);
    let nlen = orig.nodes@.len() as int;
    let lvals = r.nodes@.skip(nlen).map_values(|n: vtree::TreeNode| leaf_isize(n));
    &&& r.state == orig.state
    &&& r.nodes@.len() == nlen + ids.len()
    &&& forall|k: int| nlen <= k < r.nodes@.len() ==> (#[trigger] r.nodes@[k]) is Leaf
    &&& forall|a: int, b: int| 0 <= a < b < lvals.len() ==> lvals[a] <= lvals[b]
    &&& lvals.to_multiset() == ids.to_multiset()
    &&& forall|i: int|
        0 <= i < nlen ==> branch_ok(
            orig.nodes@,
            questions,
            lvals,
            orig.nodes@[i],
            #[trigger] r.nodes@[i],
        )
}

/// What `convert_tree` returns: either the one-leaf short form, or the
/// full form of `converted_full`.
pub open spec fn spec_converted(orig: Tree, questions: Seq<Question>, r: vtree::Tree) -> bool {
    if orig.nodes@.len() == 1 && orig.nodes@[0].yes == orig.nodes@[0].no {
        &&& r.state == orig.state
        &&& r.nodes@.len() == 1
        &&& r.nodes@[0] matches vtree::TreeNode::Leaf { pdf_index } && orig.nodes@[0].yes
            matches TreeIndex::Pdf(id) && pdf_index as int == id as int
    } else {
        converted_full(orig, questions, r)
    }
}

/// Index of the first question with the given name.
fn find_question(questions: &Vec<Question>, name: &String) -> (r: Option<usize>)
    ensures
        match r {
            Some(i) => i < questions@.len() && questions@[i as int].spec_name() == name@ && (forall|
                j: int,
            | 0 <= j < i ==> questions@[j].spec_name() != name@),
            None => forall|j: int| 0 <= j < questions@.len() ==> questions@[j].spec_name() != name@,
        },
{
    let mut i: usize = 0;
    while i < questions.len()
        invariant
            i <= questions@.len(),
            forall|j: int| 0 <= j < i ==> questions@[j].spec_name() != name@,
        decreases questions@.len() - i,
    {
        if str_equal(questions[i].name().as_str(), name.as_str()) {
            return Some(i);
        }
        i += 1;
    }
    None
}

/// Index of the last branch node carrying the given id.
fn last_id_index(nodes: &Vec<Node>, id: isize) -> (r: Option<usize>)
    ensures
        match r {
            Some(j) => j < nodes@.len() && nodes@[j as int].id == id && (forall|k: int|
                j < k < nodes@.len() ==> (#[trigger] nodes@[k]).id != id),
            None => forall|k: int| 0 <= k < nodes@.len() ==> (#[trigger] nodes@[k]).id != id,
        },
{
    let mut best: Option<usize> = None;
    let mut i: usize = 0;
    while i < nodes.len()
        invariant
            i <= nodes@.len(),
            match best {
                Some(j) => j < i && nodes@[j as int].id == id && (forall|k: int|
                    j < k < i ==> (#[trigger] nodes@[k]).id != id),
                None => forall|k: int| 0 <= k < i ==> (#[trigger] nodes@[k]).id != id,
            },
        decreases nodes@.len() - i,
    {
        if nodes[i].id == id {
            best = Some(i);
        }
        i += 1;
    }
    best
}

/// Index of the first slot of `sorted` carrying the given id.
fn first_slot(sorted: &Vec<isize>, id: isize) -> (r: Option<usize>)
    ensures
        match r {
            Some(k) => k < sorted@.len() && sorted@[k as int] == id && (forall|t: int|
                0 <= t < k ==> sorted@[t] != id),
            None => forall|t: int| 0 <= t < sorted@.len() ==> sorted@[t] != id,
        },
{
    let mut i: usize = 0;
    while i < sorted.len()
        invariant
            i <= sorted@.len(),
            forall|t: int| 0 <= t < i ==> sorted@[t] != id,
        decreases sorted@.len() - i,
    {
        if sorted[i] == id {
            return Some(i);
        }
        i += 1;
    }
    None
}

/// Sorts PDF ids ascending, keeping the multiset of values.
fn sort_ids(v: Vec<isize>) -> (r: Vec<isize>)
    ensures
        r@.len() == v@.len(),
        forall|i: int, j: int| 0 <= i < j < r@.len() ==> r@[i] <= r@[j],
        r@.to_multiset() == v@.to_multiset(),
{
    let mut rem = v;
    let mut out: Vec<isize> = Vec::new();
    proof {
        broadcast use vstd::multiset::group_multiset_axioms;

        assert(out@ =~= Seq::<isize>::empty());
        out@.to_multiset_ensures();
        assert(forall|a: isize| !out@.contains(a));
        assert(out@.to_multiset().add(rem@.to_multiset()) =~= rem@.to_multiset());
    }
    while rem.len() > 0
        invariant
            out@.to_multiset().add(rem@.to_multiset()) == v@.to_multiset(),
            out@.len() + rem@.len() == v@.len(),
            forall|i: int, j: int| 0 <= i < j < out@.len() ==> out@[i] <= out@[j],
            forall|i: int, j: int|
                0 <= i < out@.len() && 0 <= j < rem@.len() ==> out@[i] <= rem@[j],
        decreases rem@.len(),
    {
        let mut mi: usize = 0;
        let mut k: usize = 1;
        while k < rem.len()
            invariant
                mi < k <= rem@.len(),
                rem@.len() > 0,
                forall|t: int| 0 <= t < k ==> rem@[mi as int] <= rem@[t],
            decreases rem@.len() - k,
        {
            if rem[k] < rem[mi] {
                mi = k;
            }
            k += 1;
        }
        let ghost rem_old = rem@;
        let ghost out_old = out@;
        let x = rem.remove(mi);
        out.push(x);
        proof {
            broadcast use vstd::multiset::group_multiset_axioms;

            assert(rem@ =~= rem_old.remove(mi as int));
            assert(out@ =~= out_old.push(x));
            out_old.to_multiset_ensures();
            rem_old.to_multiset_ensures();
            assert(out@.to_multiset() == out_old.to_multiset().insert(x));
            assert(rem@.to_multiset() == rem_old.to_multiset().remove(x));
            assert(rem_old.contains(x));
            assert(rem_old.to_multiset().count(x) > 0);
            assert(out@.to_multiset().add(rem@.to_multiset()) =~= out_old.to_multiset().add(
                rem_old.to_multiset(),
            ));
            assert(forall|j: int| 0 <= j < rem@.len() ==> x <= rem@[j]) by {
                assert(forall|j: int| 0 <= j < mi ==> rem@[j] == rem_old[j]);
                assert(forall|j: int| mi <= j < rem@.len() ==> rem@[j] == rem_old[j + 1]);
            }
        }
    }
    proof {
        broadcast use vstd::multiset::group_multiset_axioms;

        assert(rem@ =~= Seq::<isize>::empty());
        rem@.to_multiset_ensures();
        assert(forall|a: isize| !rem@.contains(a));
        assert(out@.to_multiset().add(rem@.to_multiset()) =~= out@.to_multiset());
    }
    out
}

proof fn lemma_collected_len(nodes: Seq<Node>)
    ensures
        collected_pdf_ids(nodes).len() <= 2 * nodes.len(),
    decreases nodes.len(),
{
    if nodes.len() > 0 {
        lemma_collected_len(nodes.drop_first());
    }
}

proof fn lemma_collected_contains(nodes: Seq<Node>, i: int)
    requires
        0 <= i < nodes.len(),
    ensures
        nodes[i].yes matches TreeIndex::Pdf(id) ==> collected_pdf_ids(nodes).contains(id),
        nodes[i].no matches TreeIndex::Pdf(id) ==> collected_pdf_ids(nodes).contains(id),
    decreases nodes.len(),
{
    if i == 0 {
        if nodes[0].yes is Pdf {
            let id = nodes[0].yes->Pdf_0;
            assert(pdf_contrib(nodes[0])[0] == id);
            assert(collected_pdf_ids(nodes)[0] == id);
        }
        if nodes[0].no is Pdf {
            let id = nodes[0].no->Pdf_0;
            let c = pdf_contrib(nodes[0]);
            assert(c[c.len() - 1] == id);
            assert(collected_pdf_ids(nodes)[c.len() - 1] == id);
        }
    } else {
        lemma_collected_contains(nodes.drop_first(), i - 1);
        let rest = collected_pdf_ids(nodes.drop_first());
        let head = pdf_contrib(nodes[0]);
        assert(nodes.drop_first()[i - 1] == nodes[i]);
        if nodes[i].yes is Pdf {
            let id = nodes[i].yes->Pdf_0;
            let t = choose|t: int| 0 <= t < rest.len() && rest[t] == id;
            assert(collected_pdf_ids(nodes)[head.len() + t] == id);
        }
        if nodes[i].no is Pdf {
            let id = nodes[i].no->Pdf_0;
            let t = choose|t: int| 0 <= t < rest.len() && rest[t] == id;
            assert(collected_pdf_ids(nodes)[head.len() + t] == id);
        }
    }
}

proof fn lemma_collected_nonneg(nodes: Seq<Node>)
    requires
        forall|i: int|
            0 <= i < nodes.len() ==> ((#[trigger] nodes[i]).yes matches TreeIndex::Pdf(id) ==> id
                >= 0),
        forall|i: int|
            0 <= i < nodes.len() ==> ((#[trigger] nodes[i]).no matches TreeIndex::Pdf(id) ==> id
                >= 0),
    ensures
        forall|k: int|
            0 <= k < collected_pdf_ids(nodes).len() ==> #[trigger] collected_pdf_ids(nodes)[k] >= 0,
    decreases nodes.len(),
{
    if nodes.len() > 0 {
        assert(forall|i: int|
            0 <= i < nodes.drop_first().len() ==> ((#[trigger] nodes.drop_first()[i]).yes
                matches TreeIndex::Pdf(id) ==> id >= 0));
        assert(forall|i: int|
            0 <= i < nodes.drop_first().len() ==> ((#[trigger] nodes.drop_first()[i]).no
                matches TreeIndex::Pdf(id) ==> id >= 0));
        lemma_collected_nonneg(nodes.drop_first());
        let head = pdf_contrib(nodes[0]);
        let rest = collected_pdf_ids(nodes.drop_first());
        assert(nodes[0].yes matches TreeIndex::Pdf(id) ==> id >= 0);
        assert(nodes[0].no matches TreeIndex::Pdf(id) ==> id >= 0);
        assert(forall|t: int| 0 <= t < head.len() ==> #[trigger] head[t] >= 0);
        assert forall|k: int|
            0 <= k < collected_pdf_ids(nodes).len() implies #[trigger] collected_pdf_ids(nodes)[k]
            >= 0 by {
            if k < head.len() {
                assert(collected_pdf_ids(nodes)[k] == head[k]);
            } else {
                assert(collected_pdf_ids(nodes)[k] == rest[k - head.len()]);
                assert(rest[k - head.len()] >= 0);
            }
        }
    }
}

/// Extracts from well-formedness that every PDF id is non-negative.
proof fn lemma_well_formed_nonneg(nodes: Seq<Node>, questions: Seq<Question>)
    requires
        tree_well_formed(nodes, questions),
    ensures
        forall|i: int|
            0 <= i < nodes.len() ==> ((#[trigger] nodes[i]).yes matches TreeIndex::Pdf(id) ==> id
                >= 0),
        forall|i: int|
            0 <= i < nodes.len() ==> ((#[trigger] nodes[i]).no matches TreeIndex::Pdf(id) ==> id
                >= 0),
{
    reveal(tree_well_formed);
}

/// Carries non-negativity across the sort: a multiset-equal sequence of
/// non-negative ids is non-negative.
proof fn lemma_sorted_nonneg(sorted: Seq<isize>, ids: Seq<isize>)
    requires
        sorted.to_multiset() == ids.to_multiset(),
        forall|k: int| 0 <= k < ids.len() ==> #[trigger] ids[k] >= 0,
    ensures
        forall|t: int| 0 <= t < sorted.len() ==> #[trigger] sorted[t] >= 0,
{
    broadcast use vstd::multiset::group_multiset_axioms;

    sorted.to_multiset_ensures();
    ids.to_multiset_ensures();
    assert forall|t: int| 0 <= t < sorted.len() implies #[trigger] sorted[t] >= 0 by {
        assert(sorted.contains(sorted[t]));
        assert(sorted.to_multiset().count(sorted[t]) > 0);
        assert(ids.contains(sorted[t]));
    }
}

/// A parsed tree whose branches can all be resolved: node ids exist,
/// question names are found among `questions`, and PDF ids are
/// non-negative.
#[verifier::opaque]
pub open spec fn tree_well_formed(nodes: Seq<Node>, questions: Seq<Question>) -> bool {
    &&& forall|i: int|
        0 <= i < nodes.len() ==> match (#[trigger] nodes[i]).yes {
            TreeIndex::Node(id) => exists|j: int|
                0 <= j < nodes.len() && (#[trigger] nodes[j]).id == id,
            TreeIndex::Pdf(id) => id >= 0,
        }
    &&& forall|i: int|
        0 <= i < nodes.len() ==> match (#[trigger] nodes[i]).no {
            TreeIndex::Node(id) => exists|j: int|
                0 <= j < nodes.len() && (#[trigger] nodes[j]).id == id,
            TreeIndex::Pdf(id) => id >= 0,
        }
    &&& forall|i: int|
        0 <= i < nodes.len() ==> exists|q: int|
            0 <= q < questions.len() && (#[trigger] questions[q]).spec_name() == (
            #[trigger] nodes[i]).question_name@
}

/// Gathers the PDF ids of all branches, in `collected_pdf_ids` order.
fn collect_pdf_ids(nodes: &Vec<Node>) -> (r: Vec<isize>)
    ensures
        r@ == collected_pdf_ids(nodes@),
{
    let nlen = nodes.len();
    let mut pdfs: Vec<isize> = Vec::new();
    let mut i: usize = 0;
    proof {
        assert(nodes@.subrange(0, 0) =~= Seq::<Node>::empty());
        assert(collected_pdf_ids(Seq::<Node>::empty()) =~= Seq::<isize>::empty());
        assert(pdfs@ =~= Seq::<isize>::empty());
    }
    while i < nlen
        invariant
            i <= nlen,
            nlen == nodes@.len(),
            pdfs@ == collected_pdf_ids(nodes@.subrange(0, i as int)),
        decreases nlen - i,
    {
        let ghost prefix = nodes@.subrange(0, i as int);
        match &nodes[i].yes {
            TreeIndex::Pdf(id) => {
                pdfs.push(*id);
            },
            _ => {},
        }
        match &nodes[i].no {
            TreeIndex::Pdf(id) => {
                pdfs.push(*id);
            },
            _ => {},
        }
        proof {
            lemma_collected_push(prefix, nodes@[i as int]);
            assert(nodes@.subrange(0, i + 1) =~= prefix.push(nodes@[i as int]));
            assert(pdfs@ =~= collected_pdf_ids(prefix) + pdf_contrib(nodes@[i as int]));
        }
        i += 1;
    }
    proof {
        assert(nodes@.subrange(0, nlen as int) =~= nodes@);
    }
    pdfs
}

/// Builds the branch section of the converted tree.
#[verifier::rlimit(50)]
fn build_branches(nodes: &Vec<Node>, questions: &Vec<Question>, sorted: &Vec<isize>) -> (r: Vec<
    vtree::TreeNode,
>)
    requires
        tree_well_formed(nodes@, questions@),
        nodes@.len() * 3 <= usize::MAX,
        sorted@.len() == collected_pdf_ids(nodes@).len(),
        sorted@.to_multiset() == collected_pdf_ids(nodes@).to_multiset(),
    ensures
        r@.len() == nodes@.len(),
        forall|k: int|
            0 <= k < nodes@.len() ==> branch_ok(
                nodes@,
                questions@,
                sorted@,
                nodes@[k],
                #[trigger] r@[k],
            ),
{
    proof {
        reveal(tree_well_formed);
    }
    let nlen = nodes.len();
    let mut out: Vec<vtree::TreeNode> = Vec::new();
    let mut i: usize = 0;
    while i < nlen
        invariant
            i <= nlen,
            nlen == nodes@.len(),
            nlen * 3 <= usize::MAX,
            out@.len() == i,
            sorted@.len() == collected_pdf_ids(nodes@).len(),
            sorted@.to_multiset() == collected_pdf_ids(nodes@).to_multiset(),
            tree_well_formed(nodes@, questions@),
            forall|k: int|
                0 <= k < i ==> branch_ok(nodes@, questions@, sorted@, nodes@[k], #[trigger] out@[k]),
        decreases nlen - i,
    {
        let node = &nodes[i];
        proof {
            broadcast use vstd::seq_lib::group_to_multiset_ensures;

            reveal(tree_well_formed);
            reveal(branch_ok);
            lemma_collected_len(nodes@);
            lemma_collected_contains(nodes@, i as int);
            let ids = collected_pdf_ids(nodes@);
            if nodes@[i as int].yes is Pdf {
                let id = nodes@[i as int].yes->Pdf_0;
                assert(ids.to_multiset().count(id) > 0);
                assert(sorted@.contains(id));
            }
            if nodes@[i as int].no is Pdf {
                let id = nodes@[i as int].no->Pdf_0;
                assert(ids.to_multiset().count(id) > 0);
                assert(sorted@.contains(id));
            }
        }
        let qi = match find_question(questions, &node.question_name) {
            Some(qi) => qi,
            None => vstd::pervasive::unreached(),
        };
        let question = questions[qi].clone();
        let yes_id = resolve_target(nodes, sorted, &node.yes, nlen);
        let no_id = resolve_target(nodes, sorted, &node.no, nlen);
        out.push(vtree::TreeNode::Node { question, yes: yes_id, no: no_id });
        i += 1;
    }
    out
}

/// Builds the leaf section of the converted tree from the sorted PDF ids.
fn leaf_section(sorted: &Vec<isize>) -> (r: Vec<vtree::TreeNode>)
    requires
        forall|t: int| 0 <= t < sorted@.len() ==> #[trigger] sorted@[t] >= 0,
    ensures
        r@.len() == sorted@.len(),
        forall|t: int|
            0 <= t < r@.len() ==> ((#[trigger] r@[t]) matches vtree::TreeNode::Leaf { pdf_index }
                && pdf_index as isize == sorted@[t]),
{
    let mut out: Vec<vtree::TreeNode> = Vec::new();
    let mut k: usize = 0;
    while k < sorted.len()
        invariant
            k <= sorted@.len(),
            out@.len() == k,
            forall|t: int| 0 <= t < sorted@.len() ==> #[trigger] sorted@[t] >= 0,
            forall|t: int|
                0 <= t < k ==> ((#[trigger] out@[t]) matches vtree::TreeNode::Leaf { pdf_index }
                    && pdf_index as isize == sorted@[t]),
        decreases sorted@.len() - k,
    {
        let id = sorted[k];
        out.push(vtree::TreeNode::Leaf { pdf_index: id as usize });
        k += 1;
    }
    out
}

/// Rebuilds a parsed tree in its searchable form.
///
/// The caller owes a well-formed tree: a single self-looping node is a PDF
/// leaf; every node id a branch refers to exists; every question name is
/// found among `questions`; and PDF ids are non-negative.
#[verifier::rlimit(100)]
pub fn convert_tree(orig_tree: Tree, questions: &Vec<Question>) -> (r: vtree::Tree)
    requires
        (orig_tree.nodes@.len() == 1 && orig_tree.nodes@[0].yes == orig_tree.nodes@[0].no)
            ==> orig_tree.nodes@[0].yes is Pdf,
        tree_well_formed(orig_tree.nodes@, questions@),
        orig_tree.nodes@.len() * 3 <= usize::MAX,
    ensures
        spec_converted(orig_tree, questions@, r),
{
    proof {
        lemma_well_formed_nonneg(orig_tree.nodes@, questions@);
    }
    let nlen = orig_tree.nodes.len();
    if nlen == 1 && index_eq(&orig_tree.nodes[0].yes, &orig_tree.nodes[0].no) {
        let pdf_index = match &orig_tree.nodes[0].yes {
            TreeIndex::Pdf(i) => *i,
            TreeIndex::Node(_) => vstd::pervasive::unreached(),
        };
        let mut nodes: Vec<vtree::TreeNode> = Vec::new();
        nodes.push(vtree::TreeNode::Leaf { pdf_index: pdf_index as usize });
        return vtree::Tree { state: orig_tree.state, nodes };
    }
    let pdfs = collect_pdf_ids(&orig_tree.nodes);
    let sorted = sort_ids(pdfs);
    let mut out = build_branches(&orig_tree.nodes, questions, &sorted);
    proof {
        lemma_collected_nonneg(orig_tree.nodes@);
        lemma_sorted_nonneg(sorted@, collected_pdf_ids(orig_tree.nodes@));
    }
    let mut leaves = leaf_section(&sorted);
    let ghost branch_part = out@;
    let ghost leaves_view = leaves@;
    out.append(&mut leaves);
    let r = vtree::Tree { state: orig_tree.state, nodes: out };
    proof {
        assert(r.nodes@ == branch_part + leaves_view);
        assert(forall|j: int| 0 <= j < nlen ==> #[trigger] r.nodes@[j] == branch_part[j]);
        assert forall|t: int|
            nlen <= t < r.nodes@.len() implies ((#[trigger] r.nodes@[t])
            matches vtree::TreeNode::Leaf { pdf_index } && pdf_index as isize == sorted@[t
            - nlen]) by {
            assert(r.nodes@[t] == leaves_view[t - nlen]);
        }
        lemma_assemble_converted(orig_tree, questions@, r, sorted@);
    }
    r
}

proof fn lemma_assemble_converted(
    orig: Tree,
    questions: Seq<Question>,
    r: vtree::Tree,
    sorted: Seq<isize>,
)
    requires
        !(orig.nodes@.len() == 1 && orig.nodes@[0].yes == orig.nodes@[0].no),
        r.state == orig.state,
        sorted.len() == collected_pdf_ids(orig.nodes@).len(),
        sorted.to_multiset() == collected_pdf_ids(orig.nodes@).to_multiset(),
        forall|a: int, b: int| 0 <= a < b < sorted.len() ==> sorted[a] <= sorted[b],
        r.nodes@.len() == orig.nodes@.len() + sorted.len(),
        forall|j: int|
            0 <= j < orig.nodes@.len() ==> branch_ok(
                orig.nodes@,
                questions,
                sorted,
                orig.nodes@[j],
                #[trigger] r.nodes@[j],
            ),
        forall|t: int|
            orig.nodes@.len() <= t < r.nodes@.len() ==> ((#[trigger] r.nodes@[t])
                matches vtree::TreeNode::Leaf { pdf_index } && pdf_index as isize == sorted[t
                - orig.nodes@.len()]),
    ensures
        spec_converted(orig, questions, r),
{
    reveal(converted_full);
    let nlen = orig.nodes@.len() as int;
    let lvals = r.nodes@.skip(nlen).map_values(|n: vtree::TreeNode| leaf_isize(n));
    assert(lvals =~= sorted) by {
        assert forall|t: int| 0 <= t < lvals.len() implies lvals[t] == sorted[t] by {
            assert(r.nodes@.skip(nlen)[t] == r.nodes@[nlen + t]);
        }
    }
    assert(forall|t: int| nlen <= t < r.nodes@.len() ==> (#[trigger] r.nodes@[t]) is Leaf);
}

/// Structural equality of branch targets.
fn index_eq(a: &TreeIndex, b: &TreeIndex) -> (r: bool)
    ensures
        r == (a == b),
{
    match (a, b) {
        (TreeIndex::Node(x), TreeIndex::Node(y)) => x == y,
        (TreeIndex::Pdf(x), TreeIndex::Pdf(y)) => x == y,
        _ => false,
    }
}

/// Resolves one branch target to its node position, as `idx_ok` says.
fn resolve_target(nodes: &Vec<Node>, sorted: &Vec<isize>, idx: &TreeIndex, nlen: usize) -> (r:
    usize)
    requires
        nlen == nodes@.len(),
        nlen * 3 <= usize::MAX,
        sorted@.len() <= nlen * 2,
        match *idx {
            TreeIndex::Node(id) => exists|j: int|
                0 <= j < nodes@.len() && (#[trigger] nodes@[j]).id == id,
            TreeIndex::Pdf(id) => exists|k: int| 0 <= k < sorted@.len() && sorted@[k] == id,
        },
    ensures
        idx_ok(nodes@, sorted@, *idx, r as int),
{
    proof {
        reveal(idx_ok);
    }
    match idx {
        TreeIndex::Node(id) => match last_id_index(nodes, *id) {
            Some(j) => j,
            None => vstd::pervasive::unreached(),
        },
        TreeIndex::Pdf(id) => match first_slot(sorted, *id) {
            Some(k) => nlen + k,
            None => vstd::pervasive::unreached(),
        },
    }
}

} // verus!
