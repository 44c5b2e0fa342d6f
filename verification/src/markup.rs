use vstd::prelude::*;

verus! {

use vstd::string::StrSliceExecFns;
use crate::output::{GOp, GRun, Op, Run, ops_view, push_op, runs_text};
use crate::textops::{to_upper_string, upper_of};

/// The index of the first occurrence of `c` in `s` at or after `from`, or
/// `s.len()` if there is none (or if `from` is out of range).
pub open spec fn find_idx(s: Seq<char>, c: char, from: int) -> int
    decreases s.len() - from,
{
    if 0 <= from < s.len() {
        if s[from] == c {
            from
        } else {
            find_idx(s, c, from + 1)
        }
    } else {
        s.len() as int
    }
}

pub proof fn lemma_find_idx(s: Seq<char>, c: char, from: int)
    requires
        0 <= from <= s.len(),
    ensures
        from <= find_idx(s, c, from) <= s.len(),
        find_idx(s, c, from) < s.len() ==> s[find_idx(s, c, from)] == c,
        forall|j: int| from <= j < find_idx(s, c, from) ==> s[j] != c,
    decreases s.len() - from,
{
    if from < s.len() && s[from] != c {
        lemma_find_idx(s, c, from + 1);
    }
}

/// An occurrence of `c` at `at` with none earlier (from `from` on) is the one
/// `find_idx` names; if there is none at all, `find_idx` names the length.
pub proof fn lemma_find_idx_is(s: Seq<char>, c: char, from: int, at: int)
    requires
        0 <= from <= at <= s.len(),
        at < s.len() ==> s[at] == c,
        forall|j: int| from <= j < at ==> s[j] != c,
    ensures
        find_idx(s, c, from) == at,
    decreases at - from,
{
    if from < at {
        lemma_find_idx_is(s, c, from + 1, at);
    }
}

/// Whether `p` is a prefix of `s`.
pub open spec fn is_prefix(p: Seq<char>, s: Seq<char>) -> bool {
    p.len() <= s.len() && s.subrange(0, p.len() as int) == p
}

/// The reading of one control token body (the characters strictly between the
/// braces): by exact match or prefix match, in this order, first match wins.
pub enum MarkToken {
    ColonLabel,
    BoldOn,
    BoldOff,
    ItalicOn,
    ItalicOff,
    Link { payload: Seq<char> },
    CrossRef { payload: Seq<char> },
    Literal { body: Seq<char> },
}

pub open spec fn classify(body: Seq<char>) -> MarkToken {
    if body == "bc"@ {
        MarkToken::ColonLabel
    } else if body == "b"@ {
        MarkToken::BoldOn
    } else if body == "\\/b"@ {
        MarkToken::BoldOff
    } else if body == "it"@ {
        MarkToken::ItalicOn
    } else if body == "\\/it"@ {
        MarkToken::ItalicOff
    } else if is_prefix("a_link|"@, body) {
        MarkToken::Link { payload: body.subrange("a_link|"@.len() as int, body.len() as int) }
    } else if is_prefix("sx|"@, body) {
        MarkToken::CrossRef { payload: body.subrange("sx|"@.len() as int, body.len() as int) }
    } else {
        MarkToken::Literal { body }
    }
}

/// A run of the given text under the given flags, or nothing when the text is
/// empty.
pub open spec fn mk_run(text: Seq<char>, bold: bool, italic: bool, underline: bool) -> Seq<GOp> {
    if text.len() == 0 {
        seq![]
    } else {
        seq![GOp::Run(GRun { text, bold, italic, underline })]
    }
}

/// What one token does: the operations it emits, and the bold and italic
/// flags that hold afterwards. The colon label is a literal `": "` in bold,
/// whatever the current state; a link keeps the current flags and forces
/// underline; a cross reference does the same on the uppercased payload; an
/// unrecognized body is emitted verbatim with no styling at all.
pub open spec fn token_effect(body: Seq<char>, bold: bool, italic: bool) -> (Seq<GOp>, bool, bool) {
    match classify(body) {
        MarkToken::ColonLabel => (
            seq![GOp::Run(GRun { text: ": "@, bold: true, italic: false, underline: false })],
            bold,
            italic,
        ),
        MarkToken::BoldOn => (seq![], true, italic),
        MarkToken::BoldOff => (seq![], false, italic),
        MarkToken::ItalicOn => (seq![], bold, true),
        MarkToken::ItalicOff => (seq![], bold, false),
        MarkToken::Link { payload } => (mk_run(payload, bold, italic, true), bold, italic),
        MarkToken::CrossRef { payload } => (
            mk_run(upper_of(payload), bold, italic, true),
            bold,
            italic,
        ),
        MarkToken::Literal { body } => (mk_run(body, false, false, false), bold, italic),
    }
}

/// The operations the markup interpreter emits for the text from `pos` on,
/// starting in the given style state: plain text up to the next `{` is one
/// run under the current flags; a brace-delimited token then acts as
/// `token_effect` says; a `{` with no later `}` makes the whole remainder one
/// literal run and ends the scan.
pub open spec fn scan_from(s: Seq<char>, pos: int, bold: bool, italic: bool) -> Seq<GOp>
    decreases s.len() - pos,
    via scan_from_decreases
{
    if !(0 <= pos <= s.len()) {
        seq![]
    } else {
        let l = find_idx(s, '{', pos);
        if l >= s.len() {
            mk_run(s.subrange(pos, s.len() as int), bold, italic, false)
        } else {
            let pre = mk_run(s.subrange(pos, l), bold, italic, false);
            let r = find_idx(s, '}', l);
            if r >= s.len() {
                pre + mk_run(s.subrange(l, s.len() as int), bold, italic, false)
            } else {
                let eff = token_effect(s.subrange(l + 1, r), bold, italic);
                pre + eff.0 + scan_from(s, r + 1, eff.1, eff.2)
            }
        }
    }
}

#[via_fn]
proof fn scan_from_decreases(s: Seq<char>, pos: int, bold: bool, italic: bool) {
    if 0 <= pos <= s.len() {
        lemma_find_idx(s, '{', pos);
        let l = find_idx(s, '{', pos);
        if l < s.len() {
            lemma_find_idx(s, '}', l);
        }
    }
}

/// The complete run sequence for one running-text string: the scan starts at
/// the first character with bold and italic both off.
pub open spec fn running_text_ops(s: Seq<char>) -> Seq<GOp> {
    scan_from(s, 0, false, false)
}

/// The visible text one token contributes: the colon label becomes `": "`,
/// style toggles vanish, a link keeps its payload, a cross reference
/// uppercases it, and an unrecognized body stays verbatim.
pub open spec fn token_text(body: Seq<char>) -> Seq<char> {
    match classify(body) {
        MarkToken::ColonLabel => ": "@,
        MarkToken::BoldOn => Seq::empty(),
        MarkToken::BoldOff => Seq::empty(),
        MarkToken::ItalicOn => Seq::empty(),
        MarkToken::ItalicOff => Seq::empty(),
        MarkToken::Link { payload } => payload,
        MarkToken::CrossRef { payload } => upper_of(payload),
        MarkToken::Literal { body } => body,
    }
}

/// The text from `pos` on with every complete token replaced by its textual
/// contribution; a `{` with no later `}` keeps the whole remainder verbatim.
pub open spec fn stripped_from(s: Seq<char>, pos: int) -> Seq<char>
    decreases s.len() - pos,
    via stripped_from_decreases
{
    if !(0 <= pos <= s.len()) {
        Seq::empty()
    } else {
        let l = find_idx(s, '{', pos);
        if l >= s.len() {
            s.subrange(pos, s.len() as int)
        } else {
            let r = find_idx(s, '}', l);
            if r >= s.len() {
                s.subrange(pos, s.len() as int)
            } else {
                s.subrange(pos, l) + token_text(s.subrange(l + 1, r)) + stripped_from(s, r + 1)
            }
        }
    }
}

#[via_fn]
proof fn stripped_from_decreases(s: Seq<char>, pos: int) {
    if 0 <= pos <= s.len() {
        lemma_find_idx(s, '{', pos);
        let l = find_idx(s, '{', pos);
        if l < s.len() {
            lemma_find_idx(s, '}', l);
        }
    }
}

pub proof fn lemma_runs_text_mk_run(text: Seq<char>, bold: bool, italic: bool, underline: bool)
    ensures
        runs_text(mk_run(text, bold, italic, underline)) == text,
{
    if text.len() == 0 {
        assert(runs_text(mk_run(text, bold, italic, underline)) =~= text);
    } else {
        let ops = mk_run(text, bold, italic, underline);
        assert(ops.drop_first() =~= Seq::<GOp>::empty());
        assert(runs_text(Seq::<GOp>::empty()) =~= Seq::<char>::empty());
        assert(runs_text(ops) =~= text);
    }
}

/// The operations of one token carry exactly its textual contribution.
pub proof fn lemma_token_effect_text(body: Seq<char>, bold: bool, italic: bool)
    ensures
        runs_text(token_effect(body, bold, italic).0) == token_text(body),
{
    match classify(body) {
        MarkToken::ColonLabel => {
            let ops = token_effect(body, bold, italic).0;
            assert(ops.drop_first() =~= Seq::<GOp>::empty());
            assert(runs_text(Seq::<GOp>::empty()) =~= Seq::<char>::empty());
            assert(runs_text(ops) =~= ": "@);
        },
        MarkToken::Link { payload } => {
            lemma_runs_text_mk_run(payload, bold, italic, true);
        },
        MarkToken::CrossRef { payload } => {
            lemma_runs_text_mk_run(upper_of(payload), bold, italic, true);
        },
        MarkToken::Literal { body: b } => {
            lemma_runs_text_mk_run(b, false, false, false);
        },
        _ => {
            assert(runs_text(Seq::<GOp>::empty()) =~= Seq::<char>::empty());
        },
    }
}

/// Law: the visible text of a scan never depends on the style state, and
/// equals the input text with every complete token replaced by its textual
/// contribution (style toggles vanish, `bc` becomes `": "`, a link keeps its
/// payload, a cross reference uppercases it, an unrecognized body stays
/// verbatim), while an unmatched `{` keeps the whole remainder, brace
/// included, verbatim: no character of the input is silently lost.
pub proof fn lemma_scan_text(s: Seq<char>, pos: int, bold: bool, italic: bool)
    requires
        0 <= pos <= s.len(),
    ensures
        runs_text(scan_from(s, pos, bold, italic)) == stripped_from(s, pos),
    decreases s.len() - pos,
{
    lemma_find_idx(s, '{', pos);
    let l = find_idx(s, '{', pos);
    if l >= s.len() {
        lemma_runs_text_mk_run(s.subrange(pos, s.len() as int), bold, italic, false);
    } else {
        let pre = mk_run(s.subrange(pos, l), bold, italic, false);
        lemma_find_idx(s, '}', l);
        let r = find_idx(s, '}', l);
        lemma_runs_text_mk_run(s.subrange(pos, l), bold, italic, false);
        if r >= s.len() {
            lemma_runs_text_mk_run(s.subrange(l, s.len() as int), bold, italic, false);
            crate::output::lemma_runs_text_add(
                pre,
                mk_run(s.subrange(l, s.len() as int), bold, italic, false),
            );
            assert(s.subrange(pos, l) + s.subrange(l, s.len() as int) =~= s.subrange(
                pos,
                s.len() as int,
            ));
        } else {
            let body = s.subrange(l + 1, r);
            let eff = token_effect(body, bold, italic);
            lemma_token_effect_text(body, bold, italic);
            lemma_scan_text(s, r + 1, eff.1, eff.2);
            crate::output::lemma_runs_text_add(pre + eff.0, scan_from(s, r + 1, eff.1, eff.2));
            crate::output::lemma_runs_text_add(pre, eff.0);
            assert(scan_from(s, pos, bold, italic) == (pre + eff.0) + scan_from(
                s,
                r + 1,
                eff.1,
                eff.2,
            ));
            assert(runs_text(scan_from(s, pos, bold, italic)) =~= s.subrange(pos, l) + token_text(
                body,
            ) + stripped_from(s, r + 1));
        }
    }
}

/// A stretch of text with no brace of either kind in it.
pub open spec fn brace_free(s: Seq<char>) -> bool {
    forall|j: int| 0 <= j < s.len() ==> s[j] != '{' && s[j] != '}'
}

/// Law: an unterminated token degrades to plain text and ends the scan. Where
/// a `{` stands at `l` with no `}` anywhere after it, the scan emits the text
/// before the brace as one run and the whole remainder from the brace on,
/// brace included, as one more run, both under the current style; nothing
/// after the brace is lost.
pub proof fn lemma_unterminated_token(s: Seq<char>, pos: int, l: int, bold: bool, italic: bool)
    requires
        0 <= pos <= l < s.len(),
        s[l] == '{',
        forall|j: int| pos <= j < l ==> s[j] != '{',
        forall|j: int| l <= j < s.len() ==> s[j] != '}',
    ensures
        scan_from(s, pos, bold, italic) == mk_run(s.subrange(pos, l), bold, italic, false) + mk_run(
            s.subrange(l, s.len() as int),
            bold,
            italic,
            false,
        ),
        runs_text(scan_from(s, pos, bold, italic)) == s.subrange(pos, s.len() as int),
{
    lemma_find_idx_is(s, '{', pos, l);
    lemma_find_idx_is(s, '}', l, s.len() as int);
    lemma_runs_text_mk_run(s.subrange(pos, l), bold, italic, false);
    lemma_runs_text_mk_run(s.subrange(l, s.len() as int), bold, italic, false);
    crate::output::lemma_runs_text_add(
        mk_run(s.subrange(pos, l), bold, italic, false),
        mk_run(s.subrange(l, s.len() as int), bold, italic, false),
    );
    assert(s.subrange(pos, l) + s.subrange(l, s.len() as int) =~= s.subrange(pos, s.len() as int));
}

/// One complete token in place: where `{` stands at `l` with nothing but
/// token body up to the `}` at `r`, the scan emits the text before the brace
/// under the current style, then the token's own operations, and goes on
/// after the `}` in the token's resulting style state.
pub proof fn lemma_scan_step(s: Seq<char>, pos: int, l: int, r: int, bold: bool, italic: bool)
    requires
        0 <= pos <= l < r < s.len(),
        s[l] == '{',
        s[r] == '}',
        forall|j: int| pos <= j < l ==> s[j] != '{',
        forall|j: int| l < j < r ==> s[j] != '}',
    ensures
        scan_from(s, pos, bold, italic) == mk_run(s.subrange(pos, l), bold, italic, false)
            + token_effect(s.subrange(l + 1, r), bold, italic).0 + scan_from(
            s,
            r + 1,
            token_effect(s.subrange(l + 1, r), bold, italic).1,
            token_effect(s.subrange(l + 1, r), bold, italic).2,
        ),
{
    lemma_find_idx_is(s, '{', pos, l);
    lemma_find_idx_is(s, '}', l, r);
}

/// A scan of brace-free text from any style state is that text as one run.
pub proof fn lemma_scan_plain(s: Seq<char>, pos: int, bold: bool, italic: bool)
    requires
        0 <= pos <= s.len(),
        forall|j: int| pos <= j < s.len() ==> s[j] != '{',
    ensures
        scan_from(s, pos, bold, italic) == mk_run(
            s.subrange(pos, s.len() as int),
            bold,
            italic,
            false,
        ),
{
    lemma_find_idx_is(s, '{', pos, s.len() as int);
}

/// Law: `{b}` … `{\/b}` around a brace-free substring makes exactly that
/// substring bold and leaves the style off afterwards: the surrounding text
/// renders unstyled, the enclosed text renders bold, and nothing else is
/// emitted.
pub proof fn lemma_bold_toggle(a: Seq<char>, m: Seq<char>, c: Seq<char>)
    requires
        brace_free(a),
        brace_free(m),
        brace_free(c),
    ensures
        scan_from(a + "{b}"@ + m + "{\\/b}"@ + c, 0, false, false) == mk_run(
            a,
            false,
            false,
            false,
        ) + mk_run(m, true, false, false) + mk_run(c, false, false, false),
{
    reveal_strlit("{b}");
    reveal_strlit("{\\/b}");
    reveal_strlit("bc");
    reveal_strlit("b");
    reveal_strlit("\\/b");
    reveal_strlit("it");
    reveal_strlit("\\/it");
    reveal_strlit("a_link|");
    reveal_strlit("sx|");
    let t1 = "{b}"@;
    let t2 = "{\\/b}"@;
    let s = a + t1 + m + t2 + c;
    let n1 = a.len() as int;
    let r1 = n1 + 2;
    let n2 = r1 + 1 + m.len();
    let r2 = n2 + 4;
    assert(t1.len() == 3 && t1[0] == '{' && t1[1] == 'b' && t1[2] == '}');
    assert(t2.len() == 5 && t2[0] == '{' && t2[1] == '\\' && t2[2] == '/' && t2[3] == 'b' && t2[4]
        == '}');
    assert(forall|j: int| 0 <= j < n1 ==> s[j] == a[j]);
    assert(s[n1] == '{' && s[n1 + 1] == 'b' && s[r1] == '}');
    assert(forall|j: int| r1 + 1 <= j < n2 ==> s[j] == m[j - (r1 + 1)]);
    assert(s[n2] == '{' && s[n2 + 1] == '\\' && s[n2 + 2] == '/' && s[n2 + 3] == 'b' && s[r2]
        == '}');
    assert(forall|j: int| r2 + 1 <= j < s.len() ==> s[j] == c[j - (r2 + 1)]);
    lemma_scan_step(s, 0, n1, r1, false, false);
    let body1 = s.subrange(n1 + 1, r1);
    assert(body1 =~= "b"@);
    assert(token_effect(body1, false, false) == (Seq::<GOp>::empty(), true, false));
    lemma_scan_step(s, r1 + 1, n2, r2, true, false);
    let body2 = s.subrange(n2 + 1, r2);
    assert(body2 =~= "\\/b"@);
    assert(token_effect(body2, true, false) == (Seq::<GOp>::empty(), false, false));
    lemma_scan_plain(s, r2 + 1, false, false);
    assert(s.subrange(0, n1) =~= a);
    assert(s.subrange(r1 + 1, n2) =~= m);
    assert(s.subrange(r2 + 1, s.len() as int) =~= c);
    assert(scan_from(s, 0, false, false) =~= mk_run(a, false, false, false) + mk_run(
        m,
        true,
        false,
        false,
    ) + mk_run(c, false, false, false));
}

/// Law: `{it}` … `{\/it}` around a brace-free substring makes exactly that
/// substring italic and leaves the style off afterwards.
pub proof fn lemma_italic_toggle(a: Seq<char>, m: Seq<char>, c: Seq<char>)
    requires
        brace_free(a),
        brace_free(m),
        brace_free(c),
    ensures
        scan_from(a + "{it}"@ + m + "{\\/it}"@ + c, 0, false, false) == mk_run(
            a,
            false,
            false,
            false,
        ) + mk_run(m, false, true, false) + mk_run(c, false, false, false),
{
    reveal_strlit("{it}");
    reveal_strlit("{\\/it}");
    reveal_strlit("bc");
    reveal_strlit("b");
    reveal_strlit("\\/b");
    reveal_strlit("it");
    reveal_strlit("\\/it");
    reveal_strlit("a_link|");
    reveal_strlit("sx|");
    let t1 = "{it}"@;
    let t2 = "{\\/it}"@;
    let s = a + t1 + m + t2 + c;
    let n1 = a.len() as int;
    let r1 = n1 + 3;
    let n2 = r1 + 1 + m.len();
    let r2 = n2 + 5;
    assert(t1.len() == 4 && t1[0] == '{' && t1[1] == 'i' && t1[2] == 't' && t1[3] == '}');
    assert(t2.len() == 6 && t2[0] == '{' && t2[1] == '\\' && t2[2] == '/' && t2[3] == 'i' && t2[4]
        == 't' && t2[5] == '}');
    assert(forall|j: int| 0 <= j < n1 ==> s[j] == a[j]);
    assert(s[n1] == '{' && s[n1 + 1] == 'i' && s[n1 + 2] == 't' && s[r1] == '}');
    assert(forall|j: int| r1 + 1 <= j < n2 ==> s[j] == m[j - (r1 + 1)]);
    assert(s[n2] == '{' && s[n2 + 1] == '\\' && s[n2 + 2] == '/' && s[n2 + 3] == 'i' && s[n2 + 4]
        == 't' && s[r2] == '}');
    assert(forall|j: int| r2 + 1 <= j < s.len() ==> s[j] == c[j - (r2 + 1)]);
    lemma_scan_step(s, 0, n1, r1, false, false);
    let body1 = s.subrange(n1 + 1, r1);
    assert(body1 =~= "it"@);
    assert("it"@ != "bc"@) by {
        assert("it"@[0] == 'i');
        assert("bc"@[0] == 'b');
    }
    assert(token_effect(body1, false, false) == (Seq::<GOp>::empty(), false, true));
    lemma_scan_step(s, r1 + 1, n2, r2, false, true);
    let body2 = s.subrange(n2 + 1, r2);
    assert(body2 =~= "\\/it"@);
    assert(token_effect(body2, false, true) == (Seq::<GOp>::empty(), false, false));
    lemma_scan_plain(s, r2 + 1, false, false);
    assert(s.subrange(0, n1) =~= a);
    assert(s.subrange(r1 + 1, n2) =~= m);
    assert(s.subrange(r2 + 1, s.len() as int) =~= c);
    assert(scan_from(s, 0, false, false) =~= mk_run(a, false, false, false) + mk_run(
        m,
        false,
        true,
        false,
    ) + mk_run(c, false, false, false));
}

/// Law: nested toggles compose. `{b}{it}` … `{\/it}{\/b}` around a brace-free
/// substring renders exactly that substring both bold and italic, and nothing
/// else.
pub proof fn lemma_nested_styles(m: Seq<char>)
    requires
        brace_free(m),
    ensures
        scan_from("{b}{it}"@ + m + "{\\/it}{\\/b}"@, 0, false, false) == mk_run(
            m,
            true,
            true,
            false,
        ),
{
    reveal_strlit("{b}{it}");
    reveal_strlit("{\\/it}{\\/b}");
    reveal_strlit("bc");
    reveal_strlit("b");
    reveal_strlit("\\/b");
    reveal_strlit("it");
    reveal_strlit("\\/it");
    reveal_strlit("a_link|");
    reveal_strlit("sx|");
    let t1 = "{b}{it}"@;
    let t2 = "{\\/it}{\\/b}"@;
    let s = t1 + m + t2;
    let mlen = m.len() as int;
    assert(t1.len() == 7 && t1[0] == '{' && t1[1] == 'b' && t1[2] == '}' && t1[3] == '{' && t1[4]
        == 'i' && t1[5] == 't' && t1[6] == '}');
    assert(t2.len() == 11 && t2[0] == '{' && t2[1] == '\\' && t2[2] == '/' && t2[3] == 'i' && t2[4]
        == 't' && t2[5] == '}' && t2[6] == '{' && t2[7] == '\\' && t2[8] == '/' && t2[9] == 'b'
        && t2[10] == '}');
    assert("it"@ != "bc"@) by {
        assert("it"@[0] == 'i');
        assert("bc"@[0] == 'b');
    }
    assert(s[0] == '{' && s[1] == 'b' && s[2] == '}' && s[3] == '{' && s[4] == 'i' && s[5] == 't'
        && s[6] == '}');
    assert(forall|j: int| 7 <= j < 7 + mlen ==> s[j] == m[j - 7]);
    let n3 = 7 + mlen;
    assert(s[n3] == '{' && s[n3 + 1] == '\\' && s[n3 + 2] == '/' && s[n3 + 3] == 'i' && s[n3 + 4]
        == 't' && s[n3 + 5] == '}');
    let n4 = n3 + 6;
    assert(s[n4] == '{' && s[n4 + 1] == '\\' && s[n4 + 2] == '/' && s[n4 + 3] == 'b' && s[n4 + 4]
        == '}');
    assert(s.len() == n4 + 5);
    lemma_scan_step(s, 0, 0, 2, false, false);
    assert(s.subrange(1, 2) =~= "b"@);
    assert(token_effect(s.subrange(1, 2), false, false) == (Seq::<GOp>::empty(), true, false));
    assert(s.subrange(0, 0) =~= Seq::<char>::empty());
    lemma_scan_step(s, 3, 3, 6, true, false);
    assert(s.subrange(4, 6) =~= "it"@);
    assert(token_effect(s.subrange(4, 6), true, false) == (Seq::<GOp>::empty(), true, true));
    assert(s.subrange(3, 3) =~= Seq::<char>::empty());
    lemma_scan_step(s, 7, n3, n3 + 5, true, true);
    assert(s.subrange(n3 + 1, n3 + 5) =~= "\\/it"@);
    assert(token_effect(s.subrange(n3 + 1, n3 + 5), true, true) == (
        Seq::<GOp>::empty(),
        true,
        false,
    ));
    assert(s.subrange(7, n3) =~= m);
    lemma_scan_step(s, n3 + 6, n4, n4 + 4, true, false);
    assert(s.subrange(n4 + 1, n4 + 4) =~= "\\/b"@);
    assert(token_effect(s.subrange(n4 + 1, n4 + 4), true, false) == (
        Seq::<GOp>::empty(),
        false,
        false,
    ));
    assert(s.subrange(n3 + 6, n4) =~= Seq::<char>::empty());
    lemma_scan_plain(s, n4 + 5, false, false);
    assert(s.subrange(n4 + 5, s.len() as int) =~= Seq::<char>::empty());
    assert(scan_from(s, 0, false, false) =~= mk_run(m, true, true, false));
}

/// Whether `text` holds exactly `pat` between the character positions `lo`
/// (inclusive) and `hi` (exclusive).
fn range_eq(text: &str, lo: usize, hi: usize, pat: &str) -> (res: bool)
    requires
        lo <= hi <= text@.len(),
    ensures
        res == (text@.subrange(lo as int, hi as int) == pat@),
{
    let np = pat.unicode_len();
    if hi - lo != np {
        assert(text@.subrange(lo as int, hi as int).len() != pat@.len());
        return false;
    }
    let mut j: usize = 0;
    while j < np
        invariant
            lo <= hi <= text@.len(),
            np == pat@.len(),
            hi - lo == np,
            j <= np,
            forall|k: int| 0 <= k < j ==> text@[lo + k] == pat@[k],
        decreases np - j,
    {
        if text.get_char(lo + j) != pat.get_char(j) {
            assert(text@.subrange(lo as int, hi as int)[j as int] != pat@[j as int]);
            return false;
        }
        j += 1;
    }
    assert(text@.subrange(lo as int, hi as int) =~= pat@);
    true
}

/// Whether the characters of `text` between `lo` and `hi` start with `pat`.
fn range_starts_with(text: &str, lo: usize, hi: usize, pat: &str) -> (res: bool)
    requires
        lo <= hi <= text@.len(),
    ensures
        res == is_prefix(pat@, text@.subrange(lo as int, hi as int)),
{
    let np = pat.unicode_len();
    if np > hi - lo {
        return false;
    }
    let res = range_eq(text, lo, lo + np, pat);
    proof {
        let whole = text@.subrange(lo as int, hi as int);
        assert(whole.subrange(0, np as int) =~= text@.subrange(lo as int, lo + np as int));
    }
    res
}

/// The position of the first `c` in `text` at or after `from`, or the length
/// of `text` if there is none.
fn find_char(text: &str, c: char, from: usize) -> (res: usize)
    requires
        from <= text@.len(),
    ensures
        res == find_idx(text@, c, from as int),
        from <= res <= text@.len(),
        res < text@.len() ==> text@[res as int] == c,
{
    let n = text.unicode_len();
    let mut i: usize = from;
    while i < n
        invariant
            from <= i <= n,
            n == text@.len(),
            forall|j: int| from <= j < i ==> text@[j] != c,
        decreases n - i,
    {
        if text.get_char(i) == c {
            proof {
                lemma_find_idx_is(text@, c, from as int, i as int);
            }
            return i;
        }
        i += 1;
    }
    proof {
        lemma_find_idx_is(text@, c, from as int, n as int);
    }
    n
}

/// Interprets one running-text string: scans it left to right, keeping a bold
/// and an italic flag, and emits the styled runs that the embedded `{...}`
/// tokens call for. The flags start off and do not outlive the call.
#[verifier::rlimit(100)]
pub fn render_running_text(text: &str) -> (ops: Vec<Op>)
    ensures
        ops_view(ops@) == running_text_ops(text@),
{
    let ghost s = text@;
    let n = text.unicode_len();
    let mut ops: Vec<Op> = Vec::new();
    let mut pos: usize = 0;
    let mut bold = false;
    let mut italic = false;
    proof {
        assert(ops_view(ops@) =~= Seq::<GOp>::empty());
        assert(Seq::<GOp>::empty() + scan_from(s, 0, false, false) =~= running_text_ops(s));
    }
    loop
        invariant
            pos <= n,
            n == s.len(),
            s == text@,
            ops_view(ops@) + scan_from(s, pos as int, bold, italic) == running_text_ops(s),
        decreases n - pos,
    {
        let ghost p0 = pos as int;
        let ghost b0 = bold;
        let ghost i0 = italic;
        let ghost v0 = ops_view(ops@);
        let l = find_char(text, '{', pos);
        let ghost pre = mk_run(s.subrange(p0, l as int), b0, i0, false);
        if l > pos {
            let pre_text = text.substring_char(pos, l).to_owned();
            push_op(&mut ops, Op::Run(Run { text: pre_text, bold, italic, underline: false }));
        }
        proof {
            assert(ops_view(ops@) =~= v0 + pre);
        }
        if l == n {
            proof {
                assert(scan_from(s, p0, b0, i0) == pre);
            }
            return ops;
        }
        let r = find_char(text, '}', l);
        if r == n {
            let tail = text.substring_char(l, n).to_owned();
            push_op(&mut ops, Op::Run(Run { text: tail, bold, italic, underline: false }));
            proof {
                let tail_run = mk_run(s.subrange(l as int, n as int), b0, i0, false);
                assert(s.subrange(l as int, n as int).len() > 0);
                assert(ops_view(ops@) =~= v0 + (pre + tail_run));
                assert(scan_from(s, p0, b0, i0) == pre + tail_run);
            }
            return ops;
        }
        let ghost body = s.subrange(l + 1, r as int);
        let ghost eff = token_effect(body, b0, i0);
        if range_eq(text, l + 1, r, "bc") {
            push_op(
                &mut ops,
                Op::Run(Run { text: ": ".to_owned(), bold: true, italic: false, underline: false }),
            );
        } else if range_eq(text, l + 1, r, "b") {
            bold = true;
        } else if range_eq(text, l + 1, r, "\\/b") {
            bold = false;
        } else if range_eq(text, l + 1, r, "it") {
            italic = true;
        } else if range_eq(text, l + 1, r, "\\/it") {
            italic = false;
        } else if range_starts_with(text, l + 1, r, "a_link|") {
            let start = l + 1 + "a_link|".unicode_len();
            let payload = text.substring_char(start, r);
            proof {
                assert(payload@ =~= body.subrange("a_link|"@.len() as int, body.len() as int));
            }
            if !payload.is_empty() {
                let payload_text = payload.to_owned();
                push_op(&mut ops, Op::Run(Run { text: payload_text, bold, italic, underline: true }));
            }
        } else if range_starts_with(text, l + 1, r, "sx|") {
            let start = l + 1 + "sx|".unicode_len();
            let payload = text.substring_char(start, r);
            proof {
                assert(payload@ =~= body.subrange("sx|"@.len() as int, body.len() as int));
            }
            let up = to_upper_string(payload);
            if !up.as_str().is_empty() {
                push_op(&mut ops, Op::Run(Run { text: up, bold, italic, underline: true }));
            }
        } else {
            let body_str = text.substring_char(l + 1, r);
            proof {
                assert(body_str@ =~= body);
            }
            if !body_str.is_empty() {
                let body_text = body_str.to_owned();
                push_op(
                    &mut ops,
                    Op::Run(Run { text: body_text, bold: false, italic: false, underline: false }),
                );
            }
        }
        pos = r + 1;
        proof {
            assert(bold == eff.1 && italic == eff.2);
            assert(ops_view(ops@) =~= (v0 + pre) + eff.0);
            assert(scan_from(s, p0, b0, i0) == pre + eff.0 + scan_from(s, pos as int, eff.1, eff.2));
            assert(ops_view(ops@) + scan_from(s, pos as int, bold, italic) =~= v0 + scan_from(
                s,
                p0,
                b0,
                i0,
            ));
        }
    }
}

} // verus!
