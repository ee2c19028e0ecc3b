use github_expander::sanitize::pretty;

#[test]
fn comment_removed_without_residue() {
    assert_eq!(pretty("text <!-- hidden --> more"), "text  more");
}

#[test]
fn comment_spanning_lines_removed() {
    assert_eq!(pretty("a<!--\nsecret\nlines\n-->b"), "ab");
}

#[test]
fn unclosed_comment_kept_verbatim() {
    assert_eq!(pretty("a<!--b"), "a<!--b");
}

#[test]
fn two_comments_removed_independently() {
    assert_eq!(pretty("x<!-- one -->y<!-- two -->z"), "xyz");
}

#[test]
fn blank_checkbox_replaced() {
    assert_eq!(pretty("- [ ] todo"), "- :white_square_button: todo");
}

#[test]
fn checked_checkbox_replaced() {
    assert_eq!(pretty("- [x] done"), "- :white_check_mark: done");
}

#[test]
fn checkbox_spacing_variant_replaced() {
    assert_eq!(pretty("-   [ ] wide"), "- :white_square_button: wide");
}

#[test]
fn indented_checkbox_replaced() {
    assert_eq!(pretty("  - [x] nested"), "- :white_check_mark: nested");
}

#[test]
fn checkbox_lines_inside_larger_text() {
    assert_eq!(
        pretty("intro\n- [ ] first\n- [x] second\noutro"),
        "intro\n- :white_square_button: first\n- :white_check_mark: second\noutro"
    );
}

#[test]
fn non_checkbox_dash_line_kept() {
    assert_eq!(pretty("- plain list item"), "- plain list item");
}

#[test]
fn newline_run_collapses_to_blank_line() {
    assert_eq!(pretty("a\n\n\n\nb"), "a\n\nb");
}

#[test]
fn exactly_three_newlines_collapse() {
    assert_eq!(pretty("a\n\n\nb"), "a\n\nb");
}

#[test]
fn two_newlines_kept() {
    assert_eq!(pretty("a\n\nb"), "a\n\nb");
}

#[test]
fn carriage_return_newlines_collapse() {
    assert_eq!(pretty("a\r\n\r\n\r\nb"), "a\n\nb");
}

#[test]
fn comment_removal_feeds_collapse() {
    assert_eq!(pretty("a\n<!-- gone -->\n\nb"), "a\n\nb");
}

#[test]
fn empty_input_stays_empty() {
    assert_eq!(pretty(""), "");
}

#[test]
fn sanitize_twice_is_sanitize_once() {
    let input = "intro\n\n- [ ] first\n- [x] second\r\ntail";
    let once = pretty(input);
    assert_eq!(pretty(&once), once);
}

#[test]
fn sanitize_twice_with_unclosed_opener() {
    let input = "x<!-- open\n- [ ] t";
    let once = pretty(input);
    assert_eq!(pretty(&once), once);
}
