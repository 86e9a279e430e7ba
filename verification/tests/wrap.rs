use optique::tui::style::{empty_line, plain, Line};
use optique::tui::wrap::{help_line, mark_if_clipped, wrap_text};

#[test]
fn wrap_text_keeps_the_first_indent_and_indents_the_rest() {
    assert_eq!(
        wrap_text("  TLS-SRP (Secure Remote Password) support", 20, 2),
        ["  TLS-SRP (Secure", "  Remote Password)", "  support"]
    );
}

#[test]
fn wrap_text_breaks_a_word_wider_than_the_line() {
    assert_eq!(wrap_text("  abcdefghij", 6, 2), ["  abcd", "  efgh", "  ij"]);
}

#[test]
fn wrap_text_of_a_fitting_line_is_the_line() {
    assert_eq!(wrap_text("  short desc", 40, 2), ["  short desc"]);
}

#[test]
fn wrap_text_hard_splits_a_word_longer_than_the_whole_line() {
    // An unbroken word must not overflow the panel it is wrapped for.
    assert!(wrap_text("  supercalifragilistic", 8, 2).iter().all(|l| l.chars().count() <= 8));
}

/// The popup does not wrap, so anything wider than it is lost off the
/// right edge — including a deeply indented pkg-help line.
#[test]
fn help_line_stays_inside_the_popup_however_indented() {
    let deep = format!("{}code sample here", " ".repeat(40));
    for line in help_line(&deep, 20) {
        assert!(line.chars().count() <= 20, "{line:?} wider than the popup");
    }
    // Tabs count as the eight columns the terminal will show.
    assert_eq!(help_line("\tx", 40), ["        x"]);
    // Blank lines survive as blank lines.
    assert_eq!(help_line("   ", 40), [""]);
    // A normal line keeps its own indent and hangs the wrap under it.
    assert_eq!(help_line("  alpha beta gamma", 12), ["  alpha beta", "    gamma"]);
}

fn text_of(l: &Line) -> String {
    l.spans.iter().map(|s| s.text.as_str()).collect()
}

fn width(l: &Line) -> usize {
    l.spans.iter().map(|s| ratatui::text::Span::raw(s.text.as_str()).width()).sum()
}

fn row(text: &str) -> Line {
    let mut l = empty_line();
    l.add_text(text, plain());
    l
}

/// Cutting the panel is announced, and the marker must be visible: a full
/// last line has to give up a column for it, else it is clipped away and
/// the cut looks like the whole text.
#[test]
fn mark_if_clipped_keeps_the_marker_inside_the_width() {
    let mut lines = vec![row("0123456789"), row("second"), row("third")];
    mark_if_clipped(&mut lines, 2, 10);
    assert_eq!(lines.len(), 2);
    let first = text_of(&lines[0]);
    assert_eq!(first, "0123456789", "untouched: the cut is marked on the last row");
    assert_eq!(text_of(&lines[1]), "second…");
    assert!(width(&lines[1]) <= 10);

    // Last row already full: it loses a column so the marker fits.
    let mut lines = vec![row("second"), row("0123456789"), row("third")];
    mark_if_clipped(&mut lines, 2, 10);
    assert_eq!(text_of(&lines[1]), "012345678…");
    assert!(width(&lines[1]) <= 10);

    // Nothing to cut, nothing to mark.
    let mut lines = vec![row("a"), row("b")];
    mark_if_clipped(&mut lines, 2, 10);
    assert_eq!(lines.len(), 2);
    assert_eq!(width(&lines[1]), 1);
}

/// Wide characters take two columns of the panel each.
#[test]
fn clipping_counts_columns_not_characters() {
    let mut lines = vec![row("漢字漢字"), row("more")];
    mark_if_clipped(&mut lines, 1, 8);
    assert_eq!(lines.len(), 1);
    assert_ne!(text_of(&lines[0]), "漢字漢字…");
    assert!(text_of(&lines[0]).ends_with('…'));
    assert!(width(&lines[0]) <= 8, "{:?}", text_of(&lines[0]));
}

#[test]
fn wrapping_loses_no_word() {
    let text = "one two three four five six seven";
    let lines = wrap_text(text, 9, 0);
    assert!(lines.len() > 1);
    assert_eq!(lines.join(" "), text);
    assert!(lines.iter().all(|l| l.chars().count() <= 9));
}

#[test]
fn a_line_without_spans_has_no_text() {
    assert_eq!(text_of(&empty_line()), "");
}
