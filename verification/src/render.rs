use vstd::prelude::*;

verus! {

use vstd::string::StrSliceExecFns;
use crate::markup::{mk_run, render_running_text, running_text_ops};
use crate::model::{
    DefinitionTree, Definition, DtElement, Entry, GDefinition, GDtElement, GEntry, GSense, GTree,
    Node, SenseNode, entry_from_node, entry_of, second_item, sense_of, tree_view, trees_view,
};
use crate::output::{GOp, GRun, Op, Run, lemma_ops_view_add, ops_view, push_op};
use crate::textops::{char_is_alphabetic, is_alpha, join_comma, join_commas, str_views};

/// The indentation of a sense label: four spaces for a parenthesised label,
/// two for one that starts with an alphabetic character, none otherwise.
pub open spec fn indent_of(sn: Seq<char>) -> int {
    if sn.len() == 0 {
        0
    } else if sn[0] == '(' {
        4
    } else if is_alpha(sn[0]) {
        2
    } else {
        0
    }
}

/// A sequence of `n` spaces.
pub open spec fn spaces(n: int) -> Seq<char> {
    Seq::new(n as nat, |i: int| ' ')
}

/// One plain single-space run, the separator the renderer puts after styled
/// fragments.
pub open spec fn space_run() -> Seq<GOp> {
    seq![GOp::Run(GRun { text: " "@, bold: false, italic: false, underline: false })]
}

/// The operations for a sense label: its indentation as a plain run, the
/// label itself, and one separating space. An absent label emits nothing.
pub open spec fn sense_number_ops(sn: Option<Seq<char>>) -> Seq<GOp> {
    match sn {
        Some(sn) => mk_run(spaces(indent_of(sn)), false, false, false) + seq![
            GOp::SenseNumber(sn),
        ] + space_run(),
        None => seq![],
    }
}

/// The operations for subject labels: all of them comma-joined as one
/// highlighted fragment, and one separating space. Absent labels emit
/// nothing.
pub open spec fn subject_labels_ops(sls: Option<Seq<Seq<char>>>) -> Seq<GOp> {
    match sls {
        Some(ls) => seq![GOp::SubjectLabels(join_comma(ls))] + space_run(),
        None => seq![],
    }
}

/// The operations for one body element: running text goes through the markup
/// interpreter and ends its line; anything else emits nothing.
pub open spec fn elem_ops(e: GDtElement) -> Seq<GOp> {
    match e {
        GDtElement::RunningText(t) => running_text_ops(t) + seq![GOp::Newline],
        GDtElement::Unhandled => seq![],
    }
}

pub open spec fn body_ops(body: Seq<GDtElement>) -> Seq<GOp>
    decreases body.len(),
{
    if body.len() == 0 {
        seq![]
    } else {
        elem_ops(body[0]) + body_ops(body.drop_first())
    }
}

/// The operations for one sense: label, subject labels, then the body in
/// order.
pub open spec fn sense_ops(s: GSense) -> Seq<GOp> {
    sense_number_ops(s.sense_number) + subject_labels_ops(s.subject_labels) + body_ops(s.body)
}

/// The operations for one sense-sequence tree, in document order.
pub open spec fn tree_ops(t: GTree) -> Seq<GOp>
    decreases t,
{
    match t {
        GTree::Sequence(children) => seq_tree_ops(children),
        GTree::Sense(s) => sense_ops(s),
        GTree::Skip => seq![],
    }
}

pub open spec fn seq_tree_ops(children: Seq<GTree>) -> Seq<GOp>
    decreases children,
{
    if children.len() == 0 {
        seq![]
    } else {
        tree_ops(children[0]) + seq_tree_ops(children.drop_first())
    }
}

/// The operations for one definition: the verb divider on its own line when
/// present, then the sense tree.
pub open spec fn definition_ops(d: GDefinition) -> Seq<GOp> {
    (match d.verb_divider {
        Some(v) => seq![GOp::VerbDivider(v), GOp::Newline],
        None => seq![],
    }) + tree_ops(d.sense_tree)
}

pub open spec fn definitions_ops(ds: Seq<GDefinition>) -> Seq<GOp>
    decreases ds.len(),
{
    if ds.len() == 0 {
        seq![]
    } else {
        definition_ops(ds[0]) + definitions_ops(ds.drop_first())
    }
}

/// The operations for one entry: the headword and functional label on one
/// line, every definition in order, and one closing blank line.
pub open spec fn entry_ops(e: GEntry) -> Seq<GOp> {
    seq![GOp::Headword(e.headword)] + space_run() + seq![
        GOp::FunctionalLabel(e.functional_label),
        GOp::Newline,
    ] + definitions_ops(e.definitions) + seq![GOp::Newline]
}

/// The operations for one entry given as a generic value: nothing at all
/// where the entry has no string headword under `hwi.hw`.
pub open spec fn node_ops(n: Node) -> Seq<GOp> {
    match entry_of(n) {
        Some(e) => entry_ops(e),
        None => seq![],
    }
}

pub open spec fn entries_ops(items: Seq<Node>) -> Seq<GOp>
    decreases items.len(),
{
    if items.len() == 0 {
        seq![]
    } else {
        node_ops(items[0]) + entries_ops(items.drop_first())
    }
}

/// The operations for a whole response document: a list renders each entry in
/// order; anything else renders nothing.
pub open spec fn document_ops(n: Node) -> Seq<GOp> {
    match n {
        Node::List(items) => entries_ops(items@),
        _ => seq![],
    }
}

proof fn lemma_body_ops_snoc(body: Seq<GDtElement>, e: GDtElement)
    ensures
        body_ops(body.push(e)) == body_ops(body) + elem_ops(e),
    decreases body.len(),
{
    if body.len() == 0 {
        assert(body.push(e).drop_first() =~= Seq::<GDtElement>::empty());
        assert(body_ops(Seq::<GDtElement>::empty()) =~= Seq::<GOp>::empty());
        assert(elem_ops(e) + Seq::<GOp>::empty() =~= elem_ops(e));
        assert(Seq::<GOp>::empty() + elem_ops(e) =~= elem_ops(e));
    } else {
        lemma_body_ops_snoc(body.drop_first(), e);
        assert(body.push(e).drop_first() =~= body.drop_first().push(e));
        assert(body.push(e)[0] == body[0]);
        assert(elem_ops(body[0]) + (body_ops(body.drop_first()) + elem_ops(e)) =~= (elem_ops(
            body[0],
        ) + body_ops(body.drop_first())) + elem_ops(e));
    }
}

proof fn lemma_seq_tree_ops_snoc(children: Seq<GTree>, t: GTree)
    ensures
        seq_tree_ops(children.push(t)) == seq_tree_ops(children) + tree_ops(t),
    decreases children.len(),
{
    if children.len() == 0 {
        assert(children.push(t).drop_first() =~= Seq::<GTree>::empty());
        assert(seq_tree_ops(Seq::<GTree>::empty()) =~= Seq::<GOp>::empty());
        assert(tree_ops(t) + Seq::<GOp>::empty() =~= tree_ops(t));
        assert(Seq::<GOp>::empty() + tree_ops(t) =~= tree_ops(t));
    } else {
        lemma_seq_tree_ops_snoc(children.drop_first(), t);
        assert(children.push(t).drop_first() =~= children.drop_first().push(t));
        assert(children.push(t)[0] == children[0]);
        assert(tree_ops(children[0]) + (seq_tree_ops(children.drop_first()) + tree_ops(t)) =~= (
        tree_ops(children[0]) + seq_tree_ops(children.drop_first())) + tree_ops(t));
    }
}

proof fn lemma_definitions_ops_snoc(ds: Seq<GDefinition>, d: GDefinition)
    ensures
        definitions_ops(ds.push(d)) == definitions_ops(ds) + definition_ops(d),
    decreases ds.len(),
{
    if ds.len() == 0 {
        assert(ds.push(d).drop_first() =~= Seq::<GDefinition>::empty());
        assert(definitions_ops(Seq::<GDefinition>::empty()) =~= Seq::<GOp>::empty());
        assert(definition_ops(d) + Seq::<GOp>::empty() =~= definition_ops(d));
        assert(Seq::<GOp>::empty() + definition_ops(d) =~= definition_ops(d));
    } else {
        lemma_definitions_ops_snoc(ds.drop_first(), d);
        assert(ds.push(d).drop_first() =~= ds.drop_first().push(d));
        assert(ds.push(d)[0] == ds[0]);
        assert(definition_ops(ds[0]) + (definitions_ops(ds.drop_first()) + definition_ops(d)) =~= (
        definition_ops(ds[0]) + definitions_ops(ds.drop_first())) + definition_ops(d));
    }
}

proof fn lemma_entries_ops_snoc(items: Seq<Node>, n: Node)
    ensures
        entries_ops(items.push(n)) == entries_ops(items) + node_ops(n),
    decreases items.len(),
{
    if items.len() == 0 {
        assert(items.push(n).drop_first() =~= Seq::<Node>::empty());
        assert(entries_ops(Seq::<Node>::empty()) =~= Seq::<GOp>::empty());
        assert(node_ops(n) + Seq::<GOp>::empty() =~= node_ops(n));
        assert(Seq::<GOp>::empty() + node_ops(n) =~= node_ops(n));
    } else {
        lemma_entries_ops_snoc(items.drop_first(), n);
        assert(items.push(n).drop_first() =~= items.drop_first().push(n));
        assert(items.push(n)[0] == items[0]);
        assert(node_ops(items[0]) + (entries_ops(items.drop_first()) + node_ops(n)) =~= (node_ops(
            items[0],
        ) + entries_ops(items.drop_first())) + node_ops(n));
    }
}

/// Renders one sense: the indentation and label, the highlighted subject
/// labels, then every body element, each running-text element interpreted
/// for markup and closed with a line break.
#[verifier::loop_isolation(false)]
pub fn render_sense(s: &SenseNode) -> (ops: Vec<Op>)
    ensures
        ops_view(ops@) == sense_ops(s@),
{
    let mut ops: Vec<Op> = Vec::new();
    proof {
        assert(ops_view(ops@) =~= Seq::<GOp>::empty());
    }
    match &s.sense_number {
        Some(sn) => {
            let slen = sn.as_str().unicode_len();
            let indent: usize = if slen == 0 {
                0
            } else {
                let c = sn.as_str().get_char(0);
                if c == '(' {
                    4
                } else if char_is_alphabetic(c) {
                    2
                } else {
                    0
                }
            };
            proof {
                assert(indent as int == indent_of(sn@));
            }
            if indent == 4 {
                push_op(
                    &mut ops,
                    Op::Run(
                        Run {
                            text: "    ".to_owned(),
                            bold: false,
                            italic: false,
                            underline: false,
                        },
                    ),
                );
                proof {
                    reveal_strlit("    ");
                    assert(spaces(4) =~= "    "@);
                }
            } else if indent == 2 {
                push_op(
                    &mut ops,
                    Op::Run(
                        Run { text: "  ".to_owned(), bold: false, italic: false, underline: false },
                    ),
                );
                proof {
                    reveal_strlit("  ");
                    assert(spaces(2) =~= "  "@);
                }
            }
            push_op(&mut ops, Op::SenseNumber(sn.clone()));
            push_op(
                &mut ops,
                Op::Run(Run { text: " ".to_owned(), bold: false, italic: false, underline: false }),
            );
            proof {
                assert(spaces(0) =~= Seq::<char>::empty());
                assert(ops_view(ops@) =~= sense_number_ops(s@.sense_number));
            }
        },
        None => {},
    }
    proof {
        assert(ops_view(ops@) =~= sense_number_ops(s@.sense_number));
    }
    match &s.subject_labels {
        Some(ls) => {
            let joined = join_commas(ls);
            push_op(&mut ops, Op::SubjectLabels(joined));
            push_op(
                &mut ops,
                Op::Run(Run { text: " ".to_owned(), bold: false, italic: false, underline: false }),
            );
        },
        None => {},
    }
    let ghost head = sense_number_ops(s@.sense_number) + subject_labels_ops(s@.subject_labels);
    proof {
        assert(ops_view(ops@) =~= head);
    }
    let mut i: usize = 0;
    let len: usize = s.body.len();
    proof {
        assert(body_ops(s@.body.subrange(0, 0)) =~= Seq::<GOp>::empty());
        assert(ops_view(ops@) =~= head + body_ops(s@.body.subrange(0, 0)));
    }
    while i < len
        invariant
            i <= len,
            ops_view(ops@) == head + body_ops(s@.body.subrange(0, i as int)),
        decreases len - i,
    {
        let ghost prefix = s@.body.subrange(0, i as int);
        match &s.body[i] {
            DtElement::RunningText(t) => {
                let mut sub = render_running_text(t.as_str());
                let ghost a = ops@;
                let ghost b = sub@;
                ops.append(&mut sub);
                push_op(&mut ops, Op::Newline);
                proof {
                    lemma_ops_view_add(a, b);
                    assert(s@.body[i as int] == GDtElement::RunningText(t@));
                    assert(ops_view(ops@) =~= (head + body_ops(prefix)) + elem_ops(
                        s@.body[i as int],
                    ));
                }
            },
            DtElement::Unhandled => {
                proof {
                    assert(s@.body[i as int] == GDtElement::Unhandled);
                    assert(ops_view(ops@) =~= (head + body_ops(prefix)) + elem_ops(
                        s@.body[i as int],
                    ));
                }
            },
        }
        proof {
            lemma_body_ops_snoc(prefix, s@.body[i as int]);
            assert(prefix.push(s@.body[i as int]) =~= s@.body.subrange(0, i + 1));
            assert(ops_view(ops@) =~= head + body_ops(s@.body.subrange(0, i + 1)));
        }
        i += 1;
    }
    proof {
        assert(s@.body.subrange(0, len as int) =~= s@.body);
    }
    ops
}

/// Renders one sense-sequence tree in document order: sequences element by
/// element, senses through `render_sense`, everything else as nothing.
#[verifier::loop_isolation(false)]
pub fn render_tree(t: &DefinitionTree) -> (ops: Vec<Op>)
    ensures
        ops_view(ops@) == tree_ops(t@),
    decreases *t,
{
    match t {
        DefinitionTree::Sequence(children) => {
            let mut ops: Vec<Op> = Vec::new();
            let mut i: usize = 0;
            let len: usize = children.len();
            proof {
                assert(trees_view(children@.subrange(0, 0)) =~= Seq::<GTree>::empty());
                assert(seq_tree_ops(Seq::<GTree>::empty()) =~= Seq::<GOp>::empty());
                assert(ops_view(ops@) =~= seq_tree_ops(trees_view(children@.subrange(0, 0))));
            }
            while i < len
                invariant
                    i <= len,
                    ops_view(ops@) == seq_tree_ops(trees_view(children@.subrange(0, i as int))),
                decreases len - i,
            {
                proof {
                    assert(decreases_to!(children@ => children@[i as int]));
                }
                let mut sub = render_tree(&children[i]);
                let ghost a = ops@;
                let ghost b = sub@;
                ops.append(&mut sub);
                proof {
                    lemma_ops_view_add(a, b);
                    let prefix = trees_view(children@.subrange(0, i as int));
                    crate::model::lemma_trees_view_add(
                        children@.subrange(0, i as int),
                        seq![children@[i as int]],
                    );
                    crate::model::lemma_trees_view_single(children@[i as int]);
                    assert(children@.subrange(0, i as int) + seq![children@[i as int]]
                        =~= children@.subrange(0, i + 1));
                    assert(trees_view(children@.subrange(0, i + 1)) =~= prefix.push(
                        tree_view(children@[i as int]),
                    ));
                    lemma_seq_tree_ops_snoc(prefix, tree_view(children@[i as int]));
                    assert(ops_view(ops@) =~= seq_tree_ops(
                        trees_view(children@.subrange(0, i + 1)),
                    ));
                }
                i += 1;
            }
            proof {
                assert(children@.subrange(0, len as int) =~= children@);
            }
            ops
        },
        DefinitionTree::Sense(s) => render_sense(s),
        DefinitionTree::Skip => Vec::new(),
    }
}

/// Renders one definition: its verb divider line when it has one, then its
/// sense tree.
pub fn render_definition(d: &Definition) -> (ops: Vec<Op>)
    ensures
        ops_view(ops@) == definition_ops(d@),
{
    let mut ops: Vec<Op> = Vec::new();
    proof {
        assert(ops_view(ops@) =~= Seq::<GOp>::empty());
    }
    match &d.verb_divider {
        Some(v) => {
            push_op(&mut ops, Op::VerbDivider(v.clone()));
            push_op(&mut ops, Op::Newline);
        },
        None => {},
    }
    let mut sub = render_tree(&d.sense_tree);
    let ghost a = ops@;
    let ghost b = sub@;
    ops.append(&mut sub);
    proof {
        lemma_ops_view_add(a, b);
        assert(ops_view(ops@) =~= definition_ops(d@));
    }
    ops
}

/// Renders one entry: the headword and functional label line, every
/// definition in order, and a closing blank line.
#[verifier::loop_isolation(false)]
pub fn render_entry(e: &Entry) -> (ops: Vec<Op>)
    ensures
        ops_view(ops@) == entry_ops(e@),
{
    let mut ops: Vec<Op> = Vec::new();
    proof {
        assert(ops_view(ops@) =~= Seq::<GOp>::empty());
    }
    push_op(&mut ops, Op::Headword(e.headword.clone()));
    push_op(
        &mut ops,
        Op::Run(Run { text: " ".to_owned(), bold: false, italic: false, underline: false }),
    );
    push_op(&mut ops, Op::FunctionalLabel(e.functional_label.clone()));
    push_op(&mut ops, Op::Newline);
    let ghost head = seq![GOp::Headword(e@.headword)] + space_run() + seq![
        GOp::FunctionalLabel(e@.functional_label),
        GOp::Newline,
    ];
    proof {
        assert(ops_view(ops@) =~= head);
    }
    let mut i: usize = 0;
    let len: usize = e.definitions.len();
    proof {
        assert(crate::model::defs_view(e.definitions@).subrange(0, 0) =~= Seq::<
            GDefinition,
        >::empty());
        assert(definitions_ops(Seq::<GDefinition>::empty()) =~= Seq::<GOp>::empty());
        assert(ops_view(ops@) =~= head + definitions_ops(e@.definitions.subrange(0, 0)));
    }
    while i < len
        invariant
            i <= len,
            ops_view(ops@) == head + definitions_ops(e@.definitions.subrange(0, i as int)),
        decreases len - i,
    {
        let mut sub = render_definition(&e.definitions[i]);
        let ghost a = ops@;
        let ghost b = sub@;
        ops.append(&mut sub);
        proof {
            lemma_ops_view_add(a, b);
            let prefix = e@.definitions.subrange(0, i as int);
            lemma_definitions_ops_snoc(prefix, e@.definitions[i as int]);
            assert(prefix.push(e@.definitions[i as int]) =~= e@.definitions.subrange(0, i + 1));
            assert(e@.definitions[i as int] == e.definitions@[i as int]@);
            assert(ops_view(ops@) =~= head + definitions_ops(e@.definitions.subrange(0, i + 1)));
        }
        i += 1;
    }
    push_op(&mut ops, Op::Newline);
    proof {
        assert(e@.definitions.subrange(0, len as int) =~= e@.definitions);
        assert(ops_view(ops@) =~= entry_ops(e@));
    }
    ops
}

/// Renders one entry given as a generic value. An entry with no string
/// headword under `hwi.hw` renders as nothing at all.
pub fn render_entry_node(n: &Node) -> (ops: Vec<Op>)
    ensures
        ops_view(ops@) == node_ops(*n),
{
    match entry_from_node(n) {
        Some(e) => render_entry(&e),
        None => {
            let ops: Vec<Op> = Vec::new();
            proof {
                assert(ops_view(ops@) =~= Seq::<GOp>::empty());
            }
            ops
        },
    }
}

/// Renders a whole response document: a list of entries renders each in
/// order, each one independent of the others; anything else renders nothing.
#[verifier::loop_isolation(false)]
pub fn render_document(n: &Node) -> (ops: Vec<Op>)
    ensures
        ops_view(ops@) == document_ops(*n),
{
    match n {
        Node::List(items) => {
            let mut ops: Vec<Op> = Vec::new();
            let mut i: usize = 0;
            let len: usize = items.len();
            proof {
                assert(items@.subrange(0, 0) =~= Seq::<Node>::empty());
                assert(entries_ops(Seq::<Node>::empty()) =~= Seq::<GOp>::empty());
                assert(ops_view(ops@) =~= entries_ops(items@.subrange(0, 0)));
            }
            while i < len
                invariant
                    i <= len,
                    ops_view(ops@) == entries_ops(items@.subrange(0, i as int)),
                decreases len - i,
            {
                let mut sub = render_entry_node(&items[i]);
                let ghost a = ops@;
                let ghost b = sub@;
                ops.append(&mut sub);
                proof {
                    lemma_ops_view_add(a, b);
                    let prefix = items@.subrange(0, i as int);
                    lemma_entries_ops_snoc(prefix, items@[i as int]);
                    assert(prefix.push(items@[i as int]) =~= items@.subrange(0, i + 1));
                    assert(ops_view(ops@) =~= entries_ops(items@.subrange(0, i + 1)));
                }
                i += 1;
            }
            proof {
                assert(items@.subrange(0, len as int) =~= items@);
            }
            ops
        },
        _ => {
            let ops: Vec<Op> = Vec::new();
            proof {
                assert(ops_view(ops@) =~= Seq::<GOp>::empty());
            }
            ops
        },
    }
}

/// Law: one malformed entry is silent and independent. An entry without a
/// string headword under `hwi.hw` contributes nothing to a document's
/// operations: the document renders exactly as if that entry were not there,
/// so every other entry still renders.
pub proof fn lemma_entry_without_headword_is_silent(items: Seq<Node>, k: int)
    requires
        0 <= k < items.len(),
        entry_of(items[k]) is None,
    ensures
        entries_ops(items) == entries_ops(items.remove(k)),
    decreases items.len(),
{
    if k == 0 {
        assert(node_ops(items[0]) =~= Seq::<GOp>::empty());
        assert(items.remove(0) =~= items.drop_first());
        assert(Seq::<GOp>::empty() + entries_ops(items.drop_first()) =~= entries_ops(
            items.drop_first(),
        ));
    } else {
        lemma_entry_without_headword_is_silent(items.drop_first(), k - 1);
        assert(items.remove(k).drop_first() =~= items.drop_first().remove(k - 1));
        assert(items.remove(k)[0] == items[0]);
    }
}

} // verus!
