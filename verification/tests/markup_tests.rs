use dict_render::markup::render_running_text;
use dict_render::output::{Op, Run};

fn run(text: &str, bold: bool, italic: bool, underline: bool) -> Op {
    Op::Run(Run { text: text.to_string(), bold, italic, underline })
}

fn texts(ops: &[Op]) -> String {
    let mut out = String::new();
    for op in ops {
        if let Op::Run(r) = op {
            out.push_str(&r.text);
        }
    }
    out
}

#[test]
fn plain_text_is_one_run() {
    let ops = render_running_text("hello world");
    assert_eq!(ops, vec![run("hello world", false, false, false)]);
}

#[test]
fn empty_text_emits_nothing() {
    let ops = render_running_text("");
    assert_eq!(ops, Vec::<Op>::new());
}

#[test]
fn colon_label_is_bold_colon_space() {
    let ops = render_running_text("a{bc}b");
    assert_eq!(
        ops,
        vec![
            run("a", false, false, false),
            run(": ", true, false, false),
            run("b", false, false, false),
        ]
    );
}

#[test]
fn bold_toggle_marks_exactly_the_substring() {
    let ops = render_running_text("x{b}mid{\\/b}y");
    assert_eq!(
        ops,
        vec![
            run("x", false, false, false),
            run("mid", true, false, false),
            run("y", false, false, false),
        ]
    );
}

#[test]
fn italic_toggle_marks_exactly_the_substring() {
    let ops = render_running_text("x{it}mid{\\/it}y");
    assert_eq!(
        ops,
        vec![
            run("x", false, false, false),
            run("mid", false, true, false),
            run("y", false, false, false),
        ]
    );
}

#[test]
fn nested_styles_mark_text_bold_and_italic() {
    let ops = render_running_text("{b}{it}text{\\/it}{\\/b}");
    assert_eq!(ops, vec![run("text", true, true, false)]);
}

#[test]
fn link_keeps_payload_and_underlines() {
    let ops = render_running_text("see {a_link|catfish} now");
    assert_eq!(
        ops,
        vec![
            run("see ", false, false, false),
            run("catfish", false, false, true),
            run(" now", false, false, false),
        ]
    );
}

#[test]
fn link_keeps_current_style_flags() {
    let ops = render_running_text("{b}{a_link|cat}{\\/b}");
    assert_eq!(ops, vec![run("cat", true, false, true)]);
}

#[test]
fn cross_reference_is_uppercased_and_underlined() {
    let ops = render_running_text("{sx|catfish}");
    assert_eq!(ops, vec![run("CATFISH", false, false, true)]);
}

#[test]
fn cross_reference_payload_spans_later_bars() {
    let ops = render_running_text("{sx|cat|fish}");
    assert_eq!(ops, vec![run("CAT|FISH", false, false, true)]);
}

#[test]
fn unknown_token_body_is_emitted_verbatim_unstyled() {
    let ops = render_running_text("{b}{wingding}{\\/b}");
    assert_eq!(ops, vec![run("wingding", false, false, false)]);
}

#[test]
fn empty_token_emits_nothing() {
    let ops = render_running_text("a{}b");
    assert_eq!(ops, vec![run("a", false, false, false), run("b", false, false, false)]);
}

#[test]
fn unterminated_token_keeps_the_tail_verbatim() {
    let ops = render_running_text("abc{b and more");
    assert_eq!(
        ops,
        vec![run("abc", false, false, false), run("{b and more", false, false, false)]
    );
}

#[test]
fn unterminated_token_keeps_current_style() {
    let ops = render_running_text("{b}x{it oops");
    assert_eq!(ops, vec![run("x", true, false, false), run("{it oops", true, false, false)]);
}

#[test]
fn tokens_are_case_sensitive() {
    let ops = render_running_text("{B}x");
    assert_eq!(ops, vec![run("B", false, false, false), run("x", false, false, false)]);
}

#[test]
fn malformed_link_without_bar_is_literal() {
    let ops = render_running_text("{a_link}");
    assert_eq!(ops, vec![run("a_link", false, false, false)]);
}

#[test]
fn visible_text_equals_input_with_tokens_substituted() {
    let ops = render_running_text("a{b}b{bc}c{\\/b}{sx|dx}e{a_link|f}");
    assert_eq!(texts(&ops), "ab: cDXef");
}

#[test]
fn visible_text_of_unterminated_scan_loses_nothing() {
    let input = "start{b}bold{unfinished tail";
    let ops = render_running_text(input);
    assert_eq!(texts(&ops), "startbold{unfinished tail");
}
