use vstd::prelude::*;

verus! {

/// One styled span of running text: the characters together with the style
/// flags that were in force when the span was emitted.
#[derive(Debug, PartialEq)]
pub struct Run {
    pub text: String,
    pub bold: bool,
    pub italic: bool,
    pub underline: bool,
}

/// Mathematical model of a `Run`: the same flags over a sequence of characters.
pub struct GRun {
    pub text: Seq<char>,
    pub bold: bool,
    pub italic: bool,
    pub underline: bool,
}

impl View for Run {
    type V = GRun;

    open spec fn view(&self) -> GRun {
        GRun { text: self.text@, bold: self.bold, italic: self.italic, underline: self.underline }
    }
}

/// One rendering operation handed to the output device. Besides plain styled
/// runs, the element kinds that carry their own presentation (headword,
/// functional label, verb divider, sense number, subject labels) are kept
/// apart, so a display layer can map each kind to its own colour while the
/// relative distinctions stay fixed.
#[derive(Debug, PartialEq)]
pub enum Op {
    Run(Run),
    Headword(String),
    FunctionalLabel(String),
    VerbDivider(String),
    SenseNumber(String),
    SubjectLabels(String),
    Newline,
}

/// Mathematical model of an `Op`.
pub enum GOp {
    Run(GRun),
    Headword(Seq<char>),
    FunctionalLabel(Seq<char>),
    VerbDivider(Seq<char>),
    SenseNumber(Seq<char>),
    SubjectLabels(Seq<char>),
    Newline,
}

impl View for Op {
    type V = GOp;

    open spec fn view(&self) -> GOp {
        match self {
            Op::Run(r) => GOp::Run(r@),
            Op::Headword(t) => GOp::Headword(t@),
            Op::FunctionalLabel(t) => GOp::FunctionalLabel(t@),
            Op::VerbDivider(t) => GOp::VerbDivider(t@),
            Op::SenseNumber(t) => GOp::SenseNumber(t@),
            Op::SubjectLabels(t) => GOp::SubjectLabels(t@),
            Op::Newline => GOp::Newline,
        }
    }
}

/// The model of a whole operation list.
pub open spec fn ops_view(ops: Seq<Op>) -> Seq<GOp> {
    ops.map_values(|o: Op| o@)
}

/// A plain run of body text: the characters of a `GOp::Run`, and nothing of
/// any other operation. Concatenated over an operation list this is the
/// visible body text, stripped of all styling.
pub open spec fn op_run_text(o: GOp) -> Seq<char> {
    match o {
        GOp::Run(r) => r.text,
        _ => Seq::empty(),
    }
}

/// The visible text of an operation list: the run texts, concatenated in order.
pub open spec fn runs_text(ops: Seq<GOp>) -> Seq<char>
    decreases ops.len(),
{
    if ops.len() == 0 {
        Seq::empty()
    } else {
        op_run_text(ops[0]) + runs_text(ops.drop_first())
    }
}

/// Appends one operation, extending the model by its view.
pub fn push_op(ops: &mut Vec<Op>, o: Op)
    ensures
        ops_view(final(ops)@) == ops_view(old(ops)@).push(o@),
{
    let ghost go = o@;
    ops.push(o);
    proof {
        assert(ops_view(ops@) =~= ops_view(old(ops)@).push(go));
    }
}

pub proof fn lemma_ops_view_add(a: Seq<Op>, b: Seq<Op>)
    ensures
        ops_view(a + b) == ops_view(a) + ops_view(b),
{
    assert(ops_view(a + b) =~= ops_view(a) + ops_view(b));
}

pub proof fn lemma_runs_text_add(a: Seq<GOp>, b: Seq<GOp>)
    ensures
        runs_text(a + b) == runs_text(a) + runs_text(b),
    decreases a.len(),
{
    if a.len() == 0 {
        assert(a + b =~= b);
        assert(runs_text(a) + runs_text(b) =~= runs_text(b));
    } else {
        lemma_runs_text_add(a.drop_first(), b);
        assert((a + b).drop_first() =~= a.drop_first() + b);
        assert(op_run_text(a[0]) + (runs_text(a.drop_first()) + runs_text(b)) =~= (op_run_text(
            a[0],
        ) + runs_text(a.drop_first())) + runs_text(b));
    }
}

} // verus!
