use figurehead::canvas::{wrap_label, AsciiCanvas};

fn chars(s: &str) -> Vec<char> {
    s.chars().collect()
}

fn lines(v: Vec<Vec<char>>) -> Vec<String> {
    v.into_iter().map(|l| l.into_iter().collect()).collect()
}

#[test]
fn wrap_label_breaks_at_spaces() {
    assert_eq!(
        lines(wrap_label(&chars("a very long comment that overflows"), 10)),
        vec!["a very", "long", "comment", "that", "overflows"]
    );
    assert_eq!(lines(wrap_label(&chars("  one  two "), 20)), vec!["one two"]);
    assert!(wrap_label(&chars("   "), 5).is_empty());
}

#[test]
fn wrap_label_keeps_long_words_whole() {
    let out = lines(wrap_label(&chars("x extraordinarily y"), 4));
    assert_eq!(out, vec!["x", "extraordinarily", "y"]);
    for l in &out {
        assert!(l.chars().count() <= 4 || !l.contains(' '));
    }
}

#[test]
fn canvas_text_trims_rows_and_trailing_blank_rows() {
    let mut c = AsciiCanvas::new(6, 4);
    c.draw_text(1, 0, "ab");
    c.draw_horizontal_line(0, 1, 3, '-');
    assert_eq!(c.to_text(), " ab\n---");
    c.draw_text(4, 2, "xyz");
    assert_eq!(c.get_char(5, 2), 'y');
    assert_eq!(c.to_text(), " ab\n---\n    xy");
}

#[test]
fn centred_text() {
    let mut c = AsciiCanvas::new(7, 1);
    c.draw_text_centered(3, 0, "abc");
    assert_eq!(c.to_text(), "  abc");
}
