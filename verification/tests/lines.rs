use rics::lines::{escape_text, fold_line};

#[test]
fn escape_text_escapes_the_four_characters() {
    assert_eq!(escape_text("a\\b;c,d\ne"), "a\\\\b\\;c\\,d\\ne");
    assert_eq!(escape_text("plain"), "plain");
}

#[test]
fn fold_line_keeps_short_lines() {
    let line = "X".repeat(75);
    assert_eq!(fold_line(&line), vec![line.clone()]);
}

#[test]
fn fold_line_splits_long_lines_within_the_limit() {
    let line = "A".repeat(200);
    let folded = fold_line(&line);
    assert_eq!(folded.len(), 3);
    assert_eq!(folded[0], "A".repeat(75));
    assert_eq!(folded[1], format!(" {}", "A".repeat(74)));
    assert_eq!(folded[2], format!(" {}", "A".repeat(51)));
    for piece in &folded {
        assert!(piece.len() <= 75);
    }
}
