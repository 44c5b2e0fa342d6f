use vstd::prelude::*;

verus! {

use crate::textops::{bullets, replace_stars, str_eq, str_views};

/// A generic already-parsed document value: a string, an ordered list, an
/// object of named fields, or anything else (a number, a boolean, null),
/// which the renderer never reads and so keeps only as `Other`.
#[derive(Debug, PartialEq)]
pub enum Node {
    Str(String),
    List(Vec<Node>),
    Object(Vec<(String, Node)>),
    Other,
}

/// One definition element that a sense body can hold: a running-text string
/// for the markup interpreter, or an element kind this renderer leaves alone.
#[derive(Debug, PartialEq)]
pub enum DtElement {
    RunningText(String),
    Unhandled,
}

/// Mathematical model of a `DtElement`.
pub enum GDtElement {
    RunningText(Seq<char>),
    Unhandled,
}

impl View for DtElement {
    type V = GDtElement;

    open spec fn view(&self) -> GDtElement {
        match self {
            DtElement::RunningText(t) => GDtElement::RunningText(t@),
            DtElement::Unhandled => GDtElement::Unhandled,
        }
    }
}

/// The models of a list of body elements.
pub open spec fn elems_view(es: Seq<DtElement>) -> Seq<GDtElement> {
    es.map_values(|e: DtElement| e@)
}

/// One sense: an optional display label, optional subject labels, and the
/// ordered body elements.
#[derive(Debug, PartialEq)]
pub struct SenseNode {
    pub sense_number: Option<String>,
    pub subject_labels: Option<Vec<String>>,
    pub body: Vec<DtElement>,
}

/// Mathematical model of a `SenseNode`.
pub struct GSense {
    pub sense_number: Option<Seq<char>>,
    pub subject_labels: Option<Seq<Seq<char>>>,
    pub body: Seq<GDtElement>,
}

impl View for SenseNode {
    type V = GSense;

    open spec fn view(&self) -> GSense {
        GSense {
            sense_number: match self.sense_number {
                Some(s) => Some(s@),
                None => None,
            },
            subject_labels: match self.subject_labels {
                Some(ls) => Some(str_views(ls@)),
                None => None,
            },
            body: elems_view(self.body@),
        }
    }
}

/// The recursive sense-sequence tree of one definition: an ordered sequence
/// of subtrees, a single sense, or a subtree this renderer leaves alone.
#[derive(Debug, PartialEq)]
pub enum DefinitionTree {
    Sequence(Vec<DefinitionTree>),
    Sense(SenseNode),
    Skip,
}

/// Mathematical model of a `DefinitionTree`.
pub enum GTree {
    Sequence(Seq<GTree>),
    Sense(GSense),
    Skip,
}

pub open spec fn tree_view(t: DefinitionTree) -> GTree
    decreases t,
{
    match t {
        DefinitionTree::Sequence(children) => GTree::Sequence(trees_view(children@)),
        DefinitionTree::Sense(s) => GTree::Sense(s@),
        DefinitionTree::Skip => GTree::Skip,
    }
}

pub open spec fn trees_view(children: Seq<DefinitionTree>) -> Seq<GTree>
    decreases children,
{
    if children.len() == 0 {
        seq![]
    } else {
        seq![tree_view(children[0])] + trees_view(children.drop_first())
    }
}

impl View for DefinitionTree {
    type V = GTree;

    open spec fn view(&self) -> GTree {
        tree_view(*self)
    }
}

/// One definition: an optional verb divider line and the sense tree.
#[derive(Debug, PartialEq)]
pub struct Definition {
    pub verb_divider: Option<String>,
    pub sense_tree: DefinitionTree,
}

/// Mathematical model of a `Definition`.
pub struct GDefinition {
    pub verb_divider: Option<Seq<char>>,
    pub sense_tree: GTree,
}

impl View for Definition {
    type V = GDefinition;

    open spec fn view(&self) -> GDefinition {
        GDefinition {
            verb_divider: match self.verb_divider {
                Some(s) => Some(s@),
                None => None,
            },
            sense_tree: tree_view(self.sense_tree),
        }
    }
}

/// The models of a list of definitions.
pub open spec fn defs_view(ds: Seq<Definition>) -> Seq<GDefinition> {
    ds.map_values(|d: Definition| d@)
}

/// One dictionary entry: the headword in display form (bullets already in
/// place), the functional label (empty when absent), and the definitions.
#[derive(Debug, PartialEq)]
pub struct Entry {
    pub headword: String,
    pub functional_label: String,
    pub definitions: Vec<Definition>,
}

/// Mathematical model of an `Entry`.
pub struct GEntry {
    pub headword: Seq<char>,
    pub functional_label: Seq<char>,
    pub definitions: Seq<GDefinition>,
}

impl View for Entry {
    type V = GEntry;

    open spec fn view(&self) -> GEntry {
        GEntry {
            headword: self.headword@,
            functional_label: self.functional_label@,
            definitions: defs_view(self.definitions@),
        }
    }
}

/// The value of the first field with the given name, if any.
pub open spec fn field_lookup(fields: Seq<(String, Node)>, key: Seq<char>) -> Option<Node>
    decreases fields.len(),
{
    if fields.len() == 0 {
        None
    } else if fields[0].0@ == key {
        Some(fields[0].1)
    } else {
        field_lookup(fields.drop_first(), key)
    }
}

/// The value of the named field of an object; `None` on anything that is not
/// an object, or lacks the field.
pub open spec fn get_field(n: Node, key: Seq<char>) -> Option<Node> {
    match n {
        Node::Object(fields) => field_lookup(fields@, key),
        _ => None,
    }
}

/// The reading of one sense-body element: a `text` element whose payload is a
/// string becomes running text; every other shape is left alone.
pub open spec fn elem_of(n: Node) -> GDtElement {
    match n {
        Node::List(items) => if items@.len() >= 2 {
            match (items@[0], items@[1]) {
                (Node::Str(tag), Node::Str(content)) => if tag@ == "text"@ {
                    GDtElement::RunningText(content@)
                } else {
                    GDtElement::Unhandled
                },
                _ => GDtElement::Unhandled,
            }
        } else {
            GDtElement::Unhandled
        },
        _ => GDtElement::Unhandled,
    }
}

/// One subject label: the string itself, or empty for a non-string value.
pub open spec fn label_text(n: Node) -> Seq<char> {
    match n {
        Node::Str(s) => s@,
        _ => Seq::empty(),
    }
}

/// The labels read from a generic list.
pub open spec fn labels_of(items: Seq<Node>) -> Seq<Seq<char>> {
    items.map_values(|x: Node| label_text(x))
}

/// The body elements read from a generic list.
pub open spec fn elems_of(items: Seq<Node>) -> Seq<GDtElement> {
    items.map_values(|x: Node| elem_of(x))
}

/// The reading of one sense object: `sn` when a string, `sls` when a list,
/// `dt` elements when a list; each degrades to absent or empty otherwise.
pub open spec fn sense_of(n: Node) -> GSense {
    GSense {
        sense_number: match get_field(n, "sn"@) {
            Some(Node::Str(s)) => Some(s@),
            _ => None,
        },
        subject_labels: match get_field(n, "sls"@) {
            Some(Node::List(items)) => Some(labels_of(items@)),
            _ => None,
        },
        body: match get_field(n, "dt"@) {
            Some(Node::List(items)) => elems_of(items@),
            _ => Seq::empty(),
        },
    }
}

/// The element after the tag, or `Other` where the list holds only the tag.
pub open spec fn second_item(items: Seq<Node>) -> Node {
    if items.len() >= 2 {
        items[1]
    } else {
        Node::Other
    }
}

/// The reading of one sense-sequence node. A list whose first element is the
/// tag `pseq` wraps one subtree at the second position; the tag `sense` wraps
/// a sense object there; the tag `bs` wraps an object whose `sense` field is
/// unwrapped once; any other tag is left alone. A list with no string tag in
/// front is an implicit sequence of all its elements, and anything that is
/// not a list is left alone.
pub open spec fn tree_of(n: Node) -> GTree
    decreases n,
{
    match n {
        Node::List(items) => {
            if items@.len() > 0 && items@[0] is Str {
                let tag = items@[0]->Str_0;
                if tag@ == "pseq"@ {
                    if items@.len() >= 2 {
                        GTree::Sequence(seq![tree_of(items@[1])])
                    } else {
                        GTree::Sequence(seq![GTree::Skip])
                    }
                } else if tag@ == "sense"@ {
                    GTree::Sense(sense_of(second_item(items@)))
                } else if tag@ == "bs"@ {
                    GTree::Sense(
                        sense_of(
                            match get_field(second_item(items@), "sense"@) {
                                Some(v) => v,
                                None => Node::Other,
                            },
                        ),
                    )
                } else {
                    GTree::Skip
                }
            } else {
                GTree::Sequence(trees_of(items@))
            }
        },
        _ => GTree::Skip,
    }
}

pub open spec fn trees_of(items: Seq<Node>) -> Seq<GTree>
    decreases items,
{
    if items.len() == 0 {
        seq![]
    } else {
        seq![tree_of(items[0])] + trees_of(items.drop_first())
    }
}

/// The reading of one definition: an object with an optional `vd` string and
/// the sense tree under `sseq`; anything else is no definition at all.
pub open spec fn def_of(n: Node) -> Option<GDefinition> {
    match n {
        Node::Object(_) => Some(
            GDefinition {
            verb_divider: match get_field(n, "vd"@) {
                Some(Node::Str(s)) => Some(s@),
                _ => None,
            },
            sense_tree: tree_of(
                match get_field(n, "sseq"@) {
                    Some(v) => v,
                    None => Node::Other,
                },
            ),
        },
        ),
        _ => None,
    }
}

/// The definitions of an entry, in order; a list element that is not an
/// object contributes nothing.
pub open spec fn defs_of(items: Seq<Node>) -> Seq<GDefinition>
    decreases items.len(),
{
    if items.len() == 0 {
        seq![]
    } else {
        (match def_of(items[0]) {
            Some(d) => seq![d],
            None => seq![],
        }) + defs_of(items.drop_first())
    }
}

/// The reading of one entry. An entry must carry a string headword under
/// `hwi.hw`; without one the whole entry reads as nothing. The headword takes
/// its display form (`*` becomes a bullet); the functional label under `fl`
/// defaults to empty; the definitions under `def` default to none.
pub open spec fn entry_of(n: Node) -> Option<GEntry> {
    match get_field(n, "hwi"@) {
        Some(hwi) => match get_field(hwi, "hw"@) {
            Some(Node::Str(hw)) => Some(
                GEntry {
                    headword: bullets(hw@),
                    functional_label: match get_field(n, "fl"@) {
                        Some(Node::Str(fl)) => fl@,
                        _ => Seq::empty(),
                    },
                    definitions: match get_field(n, "def"@) {
                        Some(Node::List(defs)) => defs_of(defs@),
                        _ => seq![],
                    },
                },
            ),
            _ => None,
        },
        _ => None,
    }
}

/// The model of an optional entry.
pub open spec fn entry_opt_view(res: Option<Entry>) -> Option<GEntry> {
    match res {
        Some(e) => Some(e@),
        None => None,
    }
}

/// Looks a field up by name in an object node; `None` on any other node.
#[verifier::loop_isolation(false)]
pub fn field_of<'a>(n: &'a Node, key: &str) -> (res: Option<&'a Node>)
    ensures
        match res {
            Some(v) => get_field(*n, key@) == Some(*v),
            None => get_field(*n, key@) is None,
        },
{
    match n {
        Node::Object(fields) => {
            let mut i: usize = 0;
            let len: usize = fields.len();
            proof {
                assert(fields@.skip(0) =~= fields@);
            }
            while i < len
                invariant
                    i <= len,
                    len == fields@.len(),
                    field_lookup(fields@.skip(i as int), key@) == field_lookup(fields@, key@),
                decreases len - i,
            {
                let f = &fields[i];
                proof {
                    assert(fields@.skip(i as int)[0] == fields@[i as int]);
                }
                if str_eq(f.0.as_str(), key) {
                    proof {
                        assert(field_lookup(fields@.skip(i as int), key@) == Some(
                            fields@[i as int].1,
                        ));
                    }
                    return Some(&f.1);
                }
                proof {
                    assert(fields@.skip(i as int).drop_first() =~= fields@.skip(i + 1));
                }
                i += 1;
            }
            proof {
                assert(fields@.skip(len as int) =~= Seq::<(String, Node)>::empty());
                assert(field_lookup(Seq::<(String, Node)>::empty(), key@) is None);
            }
            None
        },
        _ => None,
    }
}

/// Reads one sense-body element from a generic value.
pub fn element_from_node(n: &Node) -> (res: DtElement)
    ensures
        res@ == elem_of(*n),
{
    match n {
        Node::List(items) => {
            if items.len() >= 2 {
                let has_text_tag = match &items[0] {
                    Node::Str(tag) => str_eq(tag.as_str(), "text"),
                    _ => false,
                };
                if has_text_tag {
                    match &items[1] {
                        Node::Str(content) => DtElement::RunningText(content.clone()),
                        _ => DtElement::Unhandled,
                    }
                } else {
                    DtElement::Unhandled
                }
            } else {
                DtElement::Unhandled
            }
        },
        _ => DtElement::Unhandled,
    }
}

/// Reads one sense from a generic value; every missing or differently-typed
/// field degrades to absent or empty.
pub fn sense_from_node(n: &Node) -> (res: SenseNode)
    ensures
        res@ == sense_of(*n),
{
    let sense_number = match field_of(n, "sn") {
        Some(Node::Str(s)) => Some(s.clone()),
        _ => None,
    };
    let subject_labels = match field_of(n, "sls") {
        Some(Node::List(items)) => {
            let mut labels: Vec<String> = Vec::new();
            let mut i: usize = 0;
            let len: usize = items.len();
            while i < len
                invariant
                    i <= len,
                    len == items@.len(),
                    labels@.len() == i as int,
                    forall|k: int| 0 <= k < i ==> labels@[k]@ == label_text(items@[k]),
                decreases len - i,
            {
                let label = match &items[i] {
                    Node::Str(s) => s.clone(),
                    _ => String::new(),
                };
                labels.push(label);
                i += 1;
            }
            proof {
                assert(str_views(labels@) =~= labels_of(items@));
            }
            Some(labels)
        },
        _ => None,
    };
    let body = match field_of(n, "dt") {
        Some(Node::List(items)) => {
            let mut body: Vec<DtElement> = Vec::new();
            let mut i: usize = 0;
            let len: usize = items.len();
            while i < len
                invariant
                    i <= len,
                    len == items@.len(),
                    body@.len() == i as int,
                    forall|k: int| 0 <= k < i ==> body@[k]@ == elem_of(items@[k]),
                decreases len - i,
            {
                let e = element_from_node(&items[i]);
                body.push(e);
                i += 1;
            }
            proof {
                assert(elems_view(body@) =~= elems_of(items@));
            }
            body
        },
        _ => Vec::new(),
    };
    let res = SenseNode { sense_number, subject_labels, body };
    proof {
        assert(elems_view(Seq::<DtElement>::empty()) =~= Seq::<GDtElement>::empty());
        assert(res@ == sense_of(*n));
    }
    res
}

/// Reads one sense-sequence tree from a generic value.
#[verifier::loop_isolation(false)]
pub fn tree_from_node(n: &Node) -> (res: DefinitionTree)
    ensures
        res@ == tree_of(*n),
    decreases *n,
{
    match n {
        Node::List(items) => {
            proof {
                assert(decreases_to!(*n => *items));
                assert(decreases_to!(*items => items@));
            }
            if items.len() == 0 {
                let children: Vec<DefinitionTree> = Vec::new();
                proof {
                    assert(trees_view(children@) =~= trees_of(items@));
                }
                return DefinitionTree::Sequence(children);
            }
            let tagged = match &items[0] {
                Node::Str(_) => true,
                _ => false,
            };
            if tagged {
                let is_pseq = match &items[0] {
                    Node::Str(tag) => str_eq(tag.as_str(), "pseq"),
                    _ => false,
                };
                let is_sense = match &items[0] {
                    Node::Str(tag) => str_eq(tag.as_str(), "sense"),
                    _ => false,
                };
                let is_bs = match &items[0] {
                    Node::Str(tag) => str_eq(tag.as_str(), "bs"),
                    _ => false,
                };
                if is_pseq {
                    let child = if items.len() >= 2 {
                        proof {
                            assert(decreases_to!(items@ => items@[1]));
                        }
                        tree_from_node(&items[1])
                    } else {
                        DefinitionTree::Skip
                    };
                    let ghost gchild = tree_view(child);
                    let mut children: Vec<DefinitionTree> = Vec::new();
                    children.push(child);
                    proof {
                        lemma_trees_view_single(children@[0]);
                        assert(children@ =~= seq![children@[0]]);
                        assert(trees_view(children@) == seq![gchild]);
                    }
                    DefinitionTree::Sequence(children)
                } else if is_sense {
                    let sense = if items.len() >= 2 {
                        sense_from_node(&items[1])
                    } else {
                        sense_from_node(&Node::Other)
                    };
                    DefinitionTree::Sense(sense)
                } else if is_bs {
                    let inner = if items.len() >= 2 {
                        field_of(&items[1], "sense")
                    } else {
                        None
                    };
                    let sense = match inner {
                        Some(v) => sense_from_node(v),
                        None => sense_from_node(&Node::Other),
                    };
                    proof {
                        if items@.len() < 2 {
                            assert(get_field(second_item(items@), "sense"@) is None);
                        }
                    }
                    DefinitionTree::Sense(sense)
                } else {
                    DefinitionTree::Skip
                }
            } else {
                let mut children: Vec<DefinitionTree> = Vec::new();
                let mut i: usize = 0;
                let len: usize = items.len();
                proof {
                    assert(items@.subrange(0, 0) =~= Seq::<Node>::empty());
                    assert(trees_view(children@) =~= trees_of(items@.subrange(0, 0)));
                }
                while i < len
                    invariant
                        i <= len,
                        children@.len() == i as int,
                        trees_view(children@) == trees_of(items@.subrange(0, i as int)),
                    decreases len - i,
                {
                    proof {
                        assert(decreases_to!(items@ => items@[i as int]));
                    }
                    let child = tree_from_node(&items[i]);
                    let ghost old_children = children@;
                    let ghost gchild = tree_view(child);
                    children.push(child);
                    proof {
                        lemma_trees_view_add(old_children, seq![children@[i as int]]);
                        lemma_trees_view_single(children@[i as int]);
                        lemma_trees_of_add(items@.subrange(0, i as int), seq![items@[i as int]]);
                        lemma_trees_of_single(items@[i as int]);
                        assert(children@ =~= old_children + seq![children@[i as int]]);
                        assert(items@.subrange(0, i as int) + seq![items@[i as int]]
                            =~= items@.subrange(0, i + 1));
                        assert(trees_view(children@) =~= trees_of(items@.subrange(0, i + 1)));
                    }
                    i += 1;
                }
                proof {
                    assert(items@.subrange(0, len as int) =~= items@);
                }
                DefinitionTree::Sequence(children)
            }
        },
        _ => DefinitionTree::Skip,
    }
}

pub proof fn lemma_trees_view_single(t: DefinitionTree)
    ensures
        trees_view(seq![t]) == seq![tree_view(t)],
{
    assert(seq![t].drop_first() =~= Seq::<DefinitionTree>::empty());
    assert(trees_view(Seq::<DefinitionTree>::empty()) =~= Seq::<GTree>::empty());
    assert(trees_view(seq![t]) =~= seq![tree_view(t)]);
}

pub proof fn lemma_trees_of_single(n: Node)
    ensures
        trees_of(seq![n]) == seq![tree_of(n)],
{
    assert(seq![n].drop_first() =~= Seq::<Node>::empty());
    assert(trees_of(Seq::<Node>::empty()) =~= Seq::<GTree>::empty());
    assert(trees_of(seq![n]) =~= seq![tree_of(n)]);
}

pub proof fn lemma_trees_view_add(a: Seq<DefinitionTree>, b: Seq<DefinitionTree>)
    ensures
        trees_view(a + b) == trees_view(a) + trees_view(b),
    decreases a.len(),
{
    if a.len() == 0 {
        assert(a + b =~= b);
        assert(trees_view(a) + trees_view(b) =~= trees_view(b));
    } else {
        lemma_trees_view_add(a.drop_first(), b);
        assert((a + b).drop_first() =~= a.drop_first() + b);
        assert((a + b)[0] == a[0]);
        assert(seq![tree_view(a[0])] + (trees_view(a.drop_first()) + trees_view(b)) =~= (seq![
            tree_view(a[0]),
        ] + trees_view(a.drop_first())) + trees_view(b));
    }
}

pub proof fn lemma_trees_of_add(a: Seq<Node>, b: Seq<Node>)
    ensures
        trees_of(a + b) == trees_of(a) + trees_of(b),
    decreases a.len(),
{
    if a.len() == 0 {
        assert(a + b =~= b);
        assert(trees_of(a) + trees_of(b) =~= trees_of(b));
    } else {
        lemma_trees_of_add(a.drop_first(), b);
        assert((a + b).drop_first() =~= a.drop_first() + b);
        assert((a + b)[0] == a[0]);
        assert(seq![tree_of(a[0])] + (trees_of(a.drop_first()) + trees_of(b)) =~= (seq![
            tree_of(a[0]),
        ] + trees_of(a.drop_first())) + trees_of(b));
    }
}

/// Reads one definition from a generic value: `None` on anything that is not
/// an object.
pub fn definition_from_node(n: &Node) -> (res: Option<Definition>)
    ensures
        match res {
            Some(d) => def_of(*n) == Some(d@),
            None => def_of(*n) is None,
        },
{
    match n {
        Node::Object(_) => {
            let verb_divider = match field_of(n, "vd") {
                Some(Node::Str(s)) => Some(s.clone()),
                _ => None,
            };
            let sense_tree = match field_of(n, "sseq") {
                Some(v) => tree_from_node(v),
                None => DefinitionTree::Skip,
            };
            Some(Definition { verb_divider, sense_tree })
        },
        _ => None,
    }
}

pub proof fn lemma_defs_of_single(n: Node)
    ensures
        defs_of(seq![n]) == (match def_of(n) {
            Some(d) => seq![d],
            None => seq![],
        }),
{
    assert(seq![n].drop_first() =~= Seq::<Node>::empty());
    assert(defs_of(Seq::<Node>::empty()) =~= Seq::<GDefinition>::empty());
    assert(defs_of(seq![n]) =~= (match def_of(n) {
        Some(d) => seq![d],
        None => seq![],
    }));
}

pub proof fn lemma_defs_of_add(a: Seq<Node>, b: Seq<Node>)
    ensures
        defs_of(a + b) == defs_of(a) + defs_of(b),
    decreases a.len(),
{
    if a.len() == 0 {
        assert(a + b =~= b);
        assert(defs_of(a) + defs_of(b) =~= defs_of(b));
    } else {
        lemma_defs_of_add(a.drop_first(), b);
        assert((a + b).drop_first() =~= a.drop_first() + b);
        assert((a + b)[0] == a[0]);
        let head = match def_of(a[0]) {
            Some(d) => seq![d],
            None => seq![],
        };
        assert(head + (defs_of(a.drop_first()) + defs_of(b)) =~= (head + defs_of(a.drop_first()))
            + defs_of(b));
    }
}

/// Reads one entry from a generic value. `None` exactly where the entry has
/// no string headword under `hwi.hw`; such an entry renders as nothing.
pub fn entry_from_node(n: &Node) -> (res: Option<Entry>)
    ensures
        entry_opt_view(res) == entry_of(*n),
{
    let hw = match field_of(n, "hwi") {
        Some(hwi) => match field_of(hwi, "hw") {
            Some(Node::Str(s)) => s,
            _ => {
                return None;
            },
        },
        _ => {
            return None;
        },
    };
    let headword = replace_stars(hw.as_str());
    let functional_label = match field_of(n, "fl") {
        Some(Node::Str(s)) => s.clone(),
        _ => String::new(),
    };
    let definitions = match field_of(n, "def") {
        Some(Node::List(items)) => {
            let mut defs: Vec<Definition> = Vec::new();
            let mut i: usize = 0;
            let len: usize = items.len();
            proof {
                assert(items@.subrange(0, 0) =~= Seq::<Node>::empty());
                assert(defs_view(defs@) =~= defs_of(items@.subrange(0, 0)));
            }
            while i < len
                invariant
                    i <= len,
                    len == items@.len(),
                    defs_view(defs@) == defs_of(items@.subrange(0, i as int)),
                decreases len - i,
            {
                let d = definition_from_node(&items[i]);
                let ghost old_defs = defs@;
                proof {
                    lemma_defs_of_add(items@.subrange(0, i as int), seq![items@[i as int]]);
                    lemma_defs_of_single(items@[i as int]);
                    assert(items@.subrange(0, i as int) + seq![items@[i as int]] =~= items@.subrange(
                        0,
                        i + 1,
                    ));
                }
                match d {
                    Some(d) => {
                        let ghost gd = d@;
                        defs.push(d);
                        proof {
                            assert(defs_view(defs@) =~= defs_view(old_defs).push(gd));
                            assert(defs_view(old_defs).push(gd) =~= defs_view(old_defs) + seq![gd]);
                            assert(defs_view(defs@) =~= defs_of(items@.subrange(0, i + 1)));
                        }
                    },
                    None => {
                        proof {
                            assert(defs_of(items@.subrange(0, i as int)) + Seq::<
                                GDefinition,
                            >::empty() =~= defs_of(items@.subrange(0, i as int)));
                            assert(defs_view(defs@) =~= defs_of(items@.subrange(0, i + 1)));
                        }
                    },
                }
                i += 1;
            }
            proof {
                assert(items@.subrange(0, len as int) =~= items@);
            }
            defs
        },
        _ => Vec::new(),
    };
    let res = Entry { headword, functional_label, definitions };
    proof {
        assert(defs_view(Seq::<Definition>::empty()) =~= Seq::<GDefinition>::empty());
        assert(res@ == entry_of(*n)->Some_0);
    }
    Some(res)
}

} // verus!
