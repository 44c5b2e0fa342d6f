use dict_render::model::{
    DefinitionTree, Definition, DtElement, Entry, Node, SenseNode, entry_from_node,
};
use dict_render::output::{Op, Run};
use dict_render::render::{
    render_definition, render_document, render_entry, render_entry_node, render_sense,
};

fn run(text: &str, bold: bool, italic: bool, underline: bool) -> Op {
    Op::Run(Run { text: text.to_string(), bold, italic, underline })
}

fn obj(fields: Vec<(&str, Node)>) -> Node {
    Node::Object(fields.into_iter().map(|(k, v)| (k.to_string(), v)).collect())
}

fn s(text: &str) -> Node {
    Node::Str(text.to_string())
}

fn text_elem(content: &str) -> Node {
    Node::List(vec![s("text"), s(content)])
}

fn sense_node(sn: Option<&str>, sls: Option<Vec<&str>>, body: Vec<DtElement>) -> SenseNode {
    SenseNode {
        sense_number: sn.map(|x| x.to_string()),
        subject_labels: sls.map(|ls| ls.into_iter().map(|x| x.to_string()).collect()),
        body,
    }
}

#[test]
fn parenthesised_sense_number_gets_four_spaces() {
    let ops = render_sense(&sense_node(Some("(2)"), None, vec![]));
    assert_eq!(
        ops,
        vec![
            run("    ", false, false, false),
            Op::SenseNumber("(2)".to_string()),
            run(" ", false, false, false),
        ]
    );
}

#[test]
fn alphabetic_sense_number_gets_two_spaces() {
    let ops = render_sense(&sense_node(Some("a"), None, vec![]));
    assert_eq!(
        ops,
        vec![
            run("  ", false, false, false),
            Op::SenseNumber("a".to_string()),
            run(" ", false, false, false),
        ]
    );
}

#[test]
fn numeric_sense_number_gets_no_indentation() {
    let ops = render_sense(&sense_node(Some("3"), None, vec![]));
    assert_eq!(ops, vec![Op::SenseNumber("3".to_string()), run(" ", false, false, false)]);
}

#[test]
fn absent_sense_number_emits_no_label() {
    let ops = render_sense(&sense_node(None, None, vec![DtElement::RunningText("x".to_string())]));
    assert_eq!(ops, vec![run("x", false, false, false), Op::Newline]);
}

#[test]
fn subject_labels_join_with_commas_before_the_body() {
    let ops = render_sense(&sense_node(
        None,
        Some(vec!["law", "archaic"]),
        vec![DtElement::RunningText("b".to_string())],
    ));
    assert_eq!(
        ops,
        vec![
            Op::SubjectLabels("law,archaic".to_string()),
            run(" ", false, false, false),
            run("b", false, false, false),
            Op::Newline,
        ]
    );
}

#[test]
fn single_subject_label_has_no_comma() {
    let ops = render_sense(&sense_node(None, Some(vec!["biology"]), vec![]));
    assert_eq!(
        ops,
        vec![Op::SubjectLabels("biology".to_string()), run(" ", false, false, false)]
    );
}

#[test]
fn unhandled_body_elements_are_skipped() {
    let ops = render_sense(&sense_node(
        None,
        None,
        vec![
            DtElement::Unhandled,
            DtElement::RunningText("kept".to_string()),
            DtElement::Unhandled,
        ],
    ));
    assert_eq!(ops, vec![run("kept", false, false, false), Op::Newline]);
}

#[test]
fn definition_without_divider_emits_no_divider_line() {
    let d = Definition { verb_divider: None, sense_tree: DefinitionTree::Skip };
    assert_eq!(render_definition(&d), Vec::<Op>::new());
}

#[test]
fn definition_with_divider_emits_it_on_its_own_line_first() {
    let d = Definition {
        verb_divider: Some("transitive verb".to_string()),
        sense_tree: DefinitionTree::Sense(sense_node(
            None,
            None,
            vec![DtElement::RunningText("x".to_string())],
        )),
    };
    assert_eq!(
        render_definition(&d),
        vec![
            Op::VerbDivider("transitive verb".to_string()),
            Op::Newline,
            run("x", false, false, false),
            Op::Newline,
        ]
    );
}

#[test]
fn headword_stars_become_bullets() {
    let e = entry_from_node(&obj(vec![
        ("hwi", obj(vec![("hw", s("cat*fish"))])),
        ("fl", s("noun")),
    ]))
    .unwrap();
    assert_eq!(e.headword, "cat\u{2022}fish");
    assert_eq!(e.functional_label, "noun");
}

#[test]
fn entry_line_holds_headword_space_label() {
    let e = Entry {
        headword: "cat".to_string(),
        functional_label: "noun".to_string(),
        definitions: vec![],
    };
    assert_eq!(
        render_entry(&e),
        vec![
            Op::Headword("cat".to_string()),
            run(" ", false, false, false),
            Op::FunctionalLabel("noun".to_string()),
            Op::Newline,
            Op::Newline,
        ]
    );
}

#[test]
fn entry_without_headword_renders_nothing() {
    let bad = obj(vec![("fl", s("noun"))]);
    assert_eq!(render_entry_node(&bad), Vec::<Op>::new());
    assert!(entry_from_node(&bad).is_none());
}

#[test]
fn bad_entry_in_a_batch_leaves_the_others_rendering() {
    let bad = obj(vec![("fl", s("noun"))]);
    let good = obj(vec![("hwi", obj(vec![("hw", s("cat"))]))]);
    let both = Node::List(vec![bad, good]);
    let good_again = obj(vec![("hwi", obj(vec![("hw", s("cat"))]))]);
    let only_good = Node::List(vec![good_again]);
    assert_eq!(render_document(&both), render_document(&only_good));
    assert!(render_document(&both).contains(&Op::Headword("cat".to_string())));
}

#[test]
fn document_that_is_not_a_list_renders_nothing() {
    assert_eq!(render_document(&s("oops")), Vec::<Op>::new());
    assert_eq!(render_document(&Node::Other), Vec::<Op>::new());
}

#[test]
fn full_entry_renders_in_document_order() {
    let entry = obj(vec![
        ("hwi", obj(vec![("hw", s("test"))])),
        ("fl", s("noun")),
        (
            "def",
            Node::List(vec![obj(vec![
                ("vd", s("transitive verb")),
                (
                    "sseq",
                    Node::List(vec![Node::List(vec![Node::List(vec![
                        s("sense"),
                        obj(vec![
                            ("sn", s("1")),
                            ("dt", Node::List(vec![text_elem("{bc}a trial")])),
                        ]),
                    ])])]),
                ),
            ])]),
        ),
    ]);
    let ops = render_entry_node(&entry);
    assert_eq!(
        ops,
        vec![
            Op::Headword("test".to_string()),
            run(" ", false, false, false),
            Op::FunctionalLabel("noun".to_string()),
            Op::Newline,
            Op::VerbDivider("transitive verb".to_string()),
            Op::Newline,
            Op::SenseNumber("1".to_string()),
            run(" ", false, false, false),
            run(": ", true, false, false),
            run("a trial", false, false, false),
            Op::Newline,
            Op::Newline,
        ]
    );
}

#[test]
fn pseq_recurses_into_its_second_element() {
    let tree = Node::List(vec![
        s("pseq"),
        Node::List(vec![Node::List(vec![
            s("sense"),
            obj(vec![("dt", Node::List(vec![text_elem("inner")]))]),
        ])]),
    ]);
    let entry = obj(vec![
        ("hwi", obj(vec![("hw", s("w"))])),
        ("def", Node::List(vec![obj(vec![("sseq", tree)])])),
    ]);
    let ops = render_entry_node(&entry);
    assert!(ops.contains(&run("inner", false, false, false)));
}

#[test]
fn bs_unwraps_its_sense_field() {
    let tree = Node::List(vec![
        s("bs"),
        obj(vec![(
            "sense",
            obj(vec![("dt", Node::List(vec![text_elem("base sense text")]))]),
        )]),
    ]);
    let entry = obj(vec![
        ("hwi", obj(vec![("hw", s("w"))])),
        ("def", Node::List(vec![obj(vec![("sseq", tree)])])),
    ]);
    let ops = render_entry_node(&entry);
    assert!(ops.contains(&run("base sense text", false, false, false)));
}

#[test]
fn unknown_tree_tag_renders_nothing() {
    let entry = obj(vec![
        ("hwi", obj(vec![("hw", s("w"))])),
        (
            "def",
            Node::List(vec![obj(vec![(
                "sseq",
                Node::List(vec![s("mystery"), s("payload")]),
            )])]),
        ),
    ]);
    let ops = render_entry_node(&entry);
    assert_eq!(
        ops,
        vec![
            Op::Headword("w".to_string()),
            run(" ", false, false, false),
            Op::FunctionalLabel("".to_string()),
            Op::Newline,
            Op::Newline,
        ]
    );
}

#[test]
fn non_string_subject_labels_become_empty_strings() {
    let sense = obj(vec![
        ("sls", Node::List(vec![s("law"), Node::Other, s("old")])),
    ]);
    let entry = obj(vec![
        ("hwi", obj(vec![("hw", s("w"))])),
        (
            "def",
            Node::List(vec![obj(vec![(
                "sseq",
                Node::List(vec![s("sense"), sense]),
            )])]),
        ),
    ]);
    let ops = render_entry_node(&entry);
    assert!(ops.contains(&Op::SubjectLabels("law,,old".to_string())));
}
