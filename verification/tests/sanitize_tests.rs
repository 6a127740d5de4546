use uploadstore::sanitize::sanitize;

#[test]
fn traversal_name_is_neutralized() {
    let out = sanitize("../../etc/passwd").expect("name should survive");
    assert_eq!(out, "____etc_passwd");
    assert!(!out.contains('/'));
    assert!(!out.contains('\\'));
    assert!(!out.contains(".."));
}

#[test]
fn backslash_is_replaced() {
    assert_eq!(sanitize("a\\b").as_deref(), Some("a_b"));
    assert_eq!(sanitize("a/b").as_deref(), Some("a_b"));
}

#[test]
fn separator_only_name_keeps_underscores() {
    // The separators become underscores before the filter runs, so a name of
    // separators and junk keeps one underscore per separator.
    assert_eq!(sanitize("*** ??? ///").as_deref(), Some("___"));
}

#[test]
fn fully_invalid_name_is_rejected() {
    assert_eq!(sanitize("*** ???"), None);
    assert_eq!(sanitize("€¥§"), None);
}

#[test]
fn empty_name_is_rejected() {
    assert_eq!(sanitize(""), None);
}

#[test]
fn clean_name_is_unchanged() {
    assert_eq!(sanitize("report-2024.pdf").as_deref(), Some("report-2024.pdf"));
}

#[test]
fn sanitizing_twice_gives_the_same_name() {
    let once = sanitize("my file(1).txt").expect("name should survive");
    assert_eq!(once, "myfile1.txt");
    let twice = sanitize(&once).expect("sanitized name should survive");
    assert_eq!(twice, once);
}

#[test]
fn filter_can_bring_dots_together() {
    // Dropping the character between two dots creates a `..` that a second
    // pass would collapse: the one input family where sanitization is not
    // idempotent.
    assert_eq!(sanitize(".!.").as_deref(), Some(".."));
    assert_eq!(sanitize("..").as_deref(), Some("_"));
}

#[test]
fn dot_runs_collapse_left_to_right() {
    assert_eq!(sanitize("...").as_deref(), Some("_."));
    assert_eq!(sanitize("....").as_deref(), Some("__"));
}

#[test]
fn unicode_characters_are_dropped() {
    assert_eq!(sanitize("résumé.txt").as_deref(), Some("rsum.txt"));
}
