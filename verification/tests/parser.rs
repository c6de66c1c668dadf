use jbonsai::model::parser::base::{parse_ascii, parse_ascii_to_string, parse_identifier, parse_pattern, sp, sp1};
use jbonsai::model::parser::tree::{Node, Tree, TreeIndex, TreeParser};
use jbonsai::model::parser::ParseError;

#[test]
fn ascii() {
    assert_eq!(
        parse_ascii("hogehoge\"\nfugafuga"),
        ("\nfugafuga", "hogehoge\"")
    );
}

#[test]
fn pattern() {
    assert_eq!(parse_pattern("*=d/A:*"), Ok(("", "*=d/A:*")));
    assert_eq!(parse_pattern("*^i-*"), Ok(("", "*^i-*")));
}

#[test]
fn parse_question() {
    assert_eq!(
        TreeParser::parse_question(
            r#"QS C-Mora_diff_Acc-Type<=0 { "*/A:-??+*","*/A:-?+*","*/A:0+*" }"#
        ),
        Ok((
            "",
            (
                "C-Mora_diff_Acc-Type<=0",
                vec!["*/A:-??+*", "*/A:-?+*", "*/A:0+*"]
            )
        ))
    );
}

#[test]
fn parse_node() {
    assert_eq!(
        TreeParser::parse_node(
            " -235 R-Phone_Boin_E                                       -236          \"dur_s2_230\" \n}",
        ),
        Ok((
            " \n}",
            Node {
                id: -235,
                question_name: "R-Phone_Boin_E".to_string(),
                yes: TreeIndex::Node(-236),
                no: TreeIndex::Pdf(230)
            }
        ))
    );
}

#[test]
fn parse_tree() {
    assert_eq!(
        TreeParser::parse_tree(
            r#"{*}[2]
{
    0 Utt_Len_Mora<=28                                    "gv_lf0_1"          -1      
    -1 Utt_Len_Mora=18                                     "gv_lf0_3"       "gv_lf0_2" 
}"#
        ),
        Ok((
            "",
            Tree {
                pattern: vec!["*".to_string()],
                state: 2,
                nodes: vec![
                    Node {
                        id: 0,
                        question_name: "Utt_Len_Mora<=28".to_string(),
                        yes: TreeIndex::Pdf(1),
                        no: TreeIndex::Node(-1)
                    },
                    Node {
                        id: -1,
                        question_name: "Utt_Len_Mora=18".to_string(),
                        yes: TreeIndex::Pdf(3),
                        no: TreeIndex::Pdf(2)
                    }
                ]
            }
        ))
    );
}

#[test]
fn base_scanners() {
    assert_eq!(sp("  \nabc"), ("abc", "  \n"));
    assert_eq!(sp("abc"), ("abc", ""));
    assert_eq!(sp1("  x"), Ok(("x", "  ")));
    assert_eq!(sp1("x"), Err(ParseError::NoMatch));
    assert_eq!(parse_identifier("dur_s2_230\" rest"), Ok(("\" rest", "dur_s2_230")));
    assert_eq!(parse_identifier("+x"), Err(ParseError::NoMatch));
    let (rest, taken) = parse_ascii_to_string("key=value\nnext");
    assert_eq!(rest, "\nnext");
    assert_eq!(taken, "key=value".to_string());
}

#[test]
fn signed_digits() {
    assert_eq!(TreeParser::parse_signed_digits("123abc"), Ok(("abc", 123)));
    assert_eq!(TreeParser::parse_signed_digits("-235 x"), Ok((" x", -235)));
    assert_eq!(TreeParser::parse_signed_digits("+5"), Err(ParseError::NoMatch));
    assert_eq!(TreeParser::parse_signed_digits("abc"), Err(ParseError::NoMatch));
    assert_eq!(TreeParser::parse_signed_digits(""), Err(ParseError::NoMatch));
    assert_eq!(
        TreeParser::parse_signed_digits("-9223372036854775808"),
        Ok(("", isize::MIN))
    );
    assert_eq!(
        TreeParser::parse_signed_digits("9223372036854775807"),
        Ok(("", isize::MAX))
    );
    assert_eq!(
        TreeParser::parse_signed_digits("9223372036854775808"),
        Err(ParseError::NoMatch)
    );
}

#[test]
fn question_ident() {
    assert_eq!(
        TreeParser::parse_question_ident("C-Mora_diff_Acc-Type<=0 rest"),
        Ok((" rest", "C-Mora_diff_Acc-Type<=0"))
    );
    assert_eq!(TreeParser::parse_question_ident(" x"), Err(ParseError::NoMatch));
}

#[test]
fn question_failures() {
    // a pattern list must hold at least one quoted pattern
    assert_eq!(
        TreeParser::parse_question("QS x { }"),
        Err(ParseError::Malformed)
    );
    // a trailing comma leaves the list committed and broken
    assert_eq!(
        TreeParser::parse_question(r#"QS x { "a", }"#),
        Err(ParseError::Malformed)
    );
    // no QS keyword: some other form may claim the line
    assert_eq!(
        TreeParser::parse_question(r#"RS x { "a" }"#),
        Err(ParseError::NoMatch)
    );
}

#[test]
fn tree_with_empty_pattern_list() {
    let (rest, tree) = TreeParser::parse_tree("{}[2]\n{\n 0 Q \"p1\" \"p2\" \n}").unwrap();
    assert_eq!(rest, "");
    assert_eq!(tree.pattern, Vec::<String>::new());
    assert_eq!(tree.state, 2);
    assert_eq!(tree.nodes.len(), 1);
    assert_eq!(tree.nodes[0].yes, TreeIndex::Pdf(1));
    assert_eq!(tree.nodes[0].no, TreeIndex::Pdf(2));
}
