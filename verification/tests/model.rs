use jbonsai::model::parser::convert::convert_tree;
use jbonsai::model::parser::tree::{Question, TreeParser};
use jbonsai::model::stream;
use jbonsai::model::voice;

fn branch(patterns: &[&str], yes: usize, no: usize) -> stream::TreeNode {
    stream::TreeNode::Node {
        patterns: patterns
            .iter()
            .map(|p| stream::Pattern::from_pattern_string(p).unwrap())
            .collect(),
        yes,
        no,
    }
}

fn leaf(pdf_index: usize) -> stream::TreeNode {
    stream::TreeNode::Leaf { pdf_index }
}

fn two_level_tree(state: usize) -> stream::Tree {
    stream::Tree {
        state,
        patterns: vec![stream::Pattern::from_pattern_string("*").unwrap()],
        nodes: vec![branch(&["*-sil+*"], 1, 2), leaf(1), branch(&["a?c"], 3, 4), leaf(2), leaf(3)],
    }
}

#[test]
fn search_follows_answers() {
    let tree = two_level_tree(2);
    assert_eq!(tree.search_node("xx-sil+yy"), Some(1));
    assert_eq!(tree.search_node("abc"), Some(2));
    assert_eq!(tree.search_node("zzz"), Some(3));
}

#[test]
fn search_leaves_malformed_trees() {
    // an index past the node list ends the walk without a PDF
    let tree = stream::Tree { state: 2, patterns: vec![], nodes: vec![branch(&["*"], 9, 9)] };
    assert_eq!(tree.search_node("x"), None);
    // a cycle is cut off rather than walked forever
    let tree = stream::Tree { state: 2, patterns: vec![], nodes: vec![branch(&["a"], 0, 0)] };
    assert_eq!(tree.search_node("x"), None);
}

#[test]
fn stream_model_lookup() {
    let gated = stream::Tree {
        state: 2,
        patterns: vec![stream::Pattern::from_pattern_string("*-sil+*").unwrap()],
        nodes: vec![leaf(2)],
    };
    let fallback = two_level_tree(2);
    let model = stream::Model::<u32>::new(
        vec![gated, fallback],
        vec![vec![10, 20, 30], vec![40, 50]],
    );
    // the gated tree serves labels it matches; its index is shifted by 2
    assert_eq!(model.get_index(2, "xx-sil+yy"), (Some(2), Some(2)));
    assert_eq!(*model.get_parameter(2, "xx-sil+yy"), 20);
    // other labels reach the second tree, whose gate matches everything
    assert_eq!(model.get_index(2, "abc"), (Some(3), Some(2)));
    assert_eq!(*model.get_parameter(2, "abc"), 50);
    // a state no tree serves falls back to tree 0 without an index
    assert_eq!(model.get_index(4, "abc"), (None, Some(2)));
}

#[test]
fn question_matching() {
    let q = Question::new(
        "C-Phone_sil".to_string(),
        vec!["*-sil+*".to_string(), "*-pau+*".to_string()],
    );
    assert!(q.matches("xx-sil+yy"));
    assert!(q.matches("xx-pau+yy"));
    assert!(!q.matches("xx-n+yy"));
}

#[test]
fn converted_tree_searches() {
    let (rest, parsed) = TreeParser::parse_tree(
        r#"{*}[2]
{
    0 Utt_Len_Mora<=28                                    "gv_lf0_1"          -1
    -1 Utt_Len_Mora=18                                     "gv_lf0_3"       "gv_lf0_2"
}"#,
    )
    .unwrap();
    assert_eq!(rest, "");
    let questions = vec![
        Question::new("Utt_Len_Mora<=28".to_string(), vec!["*short*".to_string()]),
        Question::new("Utt_Len_Mora=18".to_string(), vec!["*exact*".to_string()]),
    ];
    let converted = convert_tree(parsed, &questions);
    assert_eq!(converted.state, 2);
    // two branches, then the leaves for PDFs 1, 2, 3 in ascending order
    assert_eq!(converted.nodes.len(), 5);
    match &converted.nodes[0] {
        voice::tree::TreeNode::Node { question, yes, no } => {
            assert_eq!(question.name().as_str(), "Utt_Len_Mora<=28");
            assert_eq!(*yes, 2);
            assert_eq!(*no, 1);
        },
        other => panic!("unexpected node: {:?}", other),
    }
    match &converted.nodes[1] {
        voice::tree::TreeNode::Node { question, yes, no } => {
            assert_eq!(question.name().as_str(), "Utt_Len_Mora=18");
            assert_eq!(*yes, 4);
            assert_eq!(*no, 3);
        },
        other => panic!("unexpected node: {:?}", other),
    }
    for (slot, pdf) in [(2usize, 1usize), (3, 2), (4, 3)] {
        match &converted.nodes[slot] {
            voice::tree::TreeNode::Leaf { pdf_index } => assert_eq!(*pdf_index, pdf),
            other => panic!("unexpected node: {:?}", other),
        }
    }
    // walk the converted tree
    assert_eq!(converted.search_node("a short label"), Some(1));
    assert_eq!(converted.search_node("an exact label"), Some(3));
    assert_eq!(converted.search_node("neither"), Some(2));
}

#[test]
fn converted_single_node_tree() {
    let (_, parsed) = TreeParser::parse_tree("{*}[2]\n{\n 0 Q \"pdf_7\" \"pdf_7\" \n}").unwrap();
    let questions = vec![Question::new("Q".to_string(), vec!["*".to_string()])];
    let converted = convert_tree(parsed, &questions);
    assert_eq!(converted.nodes.len(), 1);
    match &converted.nodes[0] {
        voice::tree::TreeNode::Leaf { pdf_index } => assert_eq!(*pdf_index, 7),
        other => panic!("unexpected node: {:?}", other),
    }
    assert_eq!(converted.search_node("anything"), Some(7));
}

#[test]
fn voice_model_lookup() {
    let questions = vec![Question::new("Q-sil".to_string(), vec!["*-sil+*".to_string()])];
    let tree = voice::tree::Tree {
        state: 2,
        nodes: vec![
            voice::tree::TreeNode::Node { question: questions[0].clone(), yes: 1, no: 2 },
            voice::tree::TreeNode::Leaf { pdf_index: 1 },
            voice::tree::TreeNode::Leaf { pdf_index: 2 },
        ],
    };
    let model = voice::model::Model::<u32>::new(vec![tree], vec![vec![11, 22]]);
    assert_eq!(model.get_index(2, "xx-sil+yy"), (Some(2), Some(1)));
    assert_eq!(model.get_index(2, "xx-n+yy"), (Some(2), Some(2)));
    assert_eq!(*model.get_parameter(2, "xx-sil+yy"), 11);
    assert_eq!(*model.get_parameter(2, "xx-n+yy"), 22);
    // a state without a tree falls back to tree 0
    assert_eq!(model.get_index(3, "xx-sil+yy"), (None, Some(1)));
}

#[test]
fn stream_metadata_defaults() {
    let meta = stream::StreamModelMetadata::default();
    assert_eq!(meta.vector_length, 0);
    assert_eq!(meta.num_windows, 0);
    assert!(!meta.is_msd);
    assert!(!meta.use_gv);
    assert!(meta.option.is_empty());
}
