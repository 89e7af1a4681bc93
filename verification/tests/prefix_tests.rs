use pdf_converter::prefix::{infer_prefix, prefix_from, resolve_prefix, sanitize_prefix_raw};
use std::path::PathBuf;

fn is_kept(c: char) -> bool {
    c.is_ascii_alphanumeric() || c == '-' || c == '_' || c == '.'
}

fn has_sanitized_shape(text: &str) -> bool {
    text.chars().all(is_kept)
        && !text.contains("--")
        && !text.starts_with('-')
        && !text.ends_with('-')
}

#[test]
fn sanitize_keeps_plain_names() {
    assert_eq!(sanitize_prefix_raw("my_file.v2"), "my_file.v2");
    assert_eq!(sanitize_prefix_raw("ABCxyz019"), "ABCxyz019");
}

#[test]
fn sanitize_replaces_runs_with_one_separator() {
    assert_eq!(sanitize_prefix_raw("Report 2024"), "Report-2024");
    assert_eq!(sanitize_prefix_raw("a b  c"), "a-b-c");
    assert_eq!(sanitize_prefix_raw("a//b"), "a-b");
    assert_eq!(sanitize_prefix_raw("a /\\ b"), "a-b");
}

#[test]
fn sanitize_trims_separators_at_both_ends() {
    assert_eq!(sanitize_prefix_raw("-a-"), "a");
    assert_eq!(sanitize_prefix_raw("  a  "), "a");
    assert_eq!(sanitize_prefix_raw("--a b--"), "a-b");
    assert_eq!(sanitize_prefix_raw("/-/a"), "a");
}

#[test]
fn sanitize_collapses_kept_separators() {
    assert_eq!(sanitize_prefix_raw("a--b"), "a-b");
    assert_eq!(sanitize_prefix_raw("a-/b"), "a-b");
    assert_eq!(sanitize_prefix_raw("a/-b"), "a-b");
    assert_eq!(sanitize_prefix_raw("a-/-/-b"), "a-b");
}

#[test]
fn sanitize_can_leave_nothing() {
    assert_eq!(sanitize_prefix_raw(""), "");
    assert_eq!(sanitize_prefix_raw("---"), "");
    assert_eq!(sanitize_prefix_raw(" / "), "");
    assert_eq!(sanitize_prefix_raw("\u{e9}\u{4e2d}"), "");
}

#[test]
fn sanitize_treats_non_ascii_as_unkept() {
    assert_eq!(sanitize_prefix_raw("caf\u{e9} au lait"), "caf-au-lait");
    assert_eq!(sanitize_prefix_raw("\u{e9}t\u{e9}"), "t");
}

#[test]
fn sanitized_text_has_the_promised_shape() {
    let inputs = [
        "",
        "-",
        "--",
        "a",
        "a-",
        "-a",
        "a--b",
        "a b",
        " a b ",
        "a/b/c",
        "..",
        "_-_",
        "-_-",
        "x - y",
        "x-- --y",
        "\u{1F600}smile\u{1F600}",
        "tab\there",
        "Report 2024 (final).pdf",
    ];
    for input in inputs {
        let clean = sanitize_prefix_raw(input);
        assert!(has_sanitized_shape(&clean), "{input:?} gave {clean:?}");
    }
}

#[test]
fn sanitizing_twice_changes_nothing() {
    for input in ["a//b", " x ", "a--b", "Report 2024", "-_-", "é"] {
        let once = sanitize_prefix_raw(input);
        assert_eq!(sanitize_prefix_raw(&once), once);
    }
}

#[test]
fn prefix_ends_with_one_separator() {
    assert_eq!(prefix_from("doc"), "doc-");
    assert_eq!(prefix_from("doc-"), "doc-");
    assert_eq!(prefix_from("doc--"), "doc-");
}

#[test]
fn prefix_falls_back_when_nothing_is_left() {
    assert_eq!(prefix_from(""), "rendered-");
    assert_eq!(prefix_from("///"), "rendered-");
    assert_eq!(prefix_from("-"), "rendered-");
}

#[test]
fn inferred_prefix_uses_the_stem() {
    assert_eq!(infer_prefix(Some("Report 2024")), "Report-2024-");
    assert_eq!(infer_prefix(Some("   ")), "rendered-");
    assert_eq!(infer_prefix(None), "rendered-");
}

#[test]
fn resolve_prefix_infers_from_the_stem() {
    let path = PathBuf::from("Report 2024.pdf");
    assert_eq!(resolve_prefix(None, &path), "Report-2024-");
}

#[test]
fn resolve_prefix_falls_back_on_an_empty_prefix() {
    let path = PathBuf::from("input.pdf");
    assert_eq!(resolve_prefix(Some(""), &path), "rendered-");
}

#[test]
fn resolve_prefix_sanitizes_the_given_prefix() {
    let path = PathBuf::from("input.pdf");
    assert_eq!(resolve_prefix(Some("a//b"), &path), "a-b-");
    let other = PathBuf::from("");
    assert_eq!(resolve_prefix(Some("a//b"), &other), "a-b-");
}

#[test]
fn resolve_prefix_prefers_the_given_prefix() {
    let path = PathBuf::from("Report 2024.pdf");
    assert_eq!(resolve_prefix(Some("out"), &path), "out-");
}

#[test]
fn resolve_prefix_handles_paths_without_a_stem() {
    assert_eq!(resolve_prefix(None, &PathBuf::from("")), "rendered-");
    assert_eq!(resolve_prefix(None, &PathBuf::from("/")), "rendered-");
    assert_eq!(resolve_prefix(None, &PathBuf::from("..")), "rendered-");
}

#[test]
fn resolve_prefix_takes_the_stem_of_the_last_component() {
    assert_eq!(resolve_prefix(None, &PathBuf::from("dir/sub/archive.tar.gz")), "archive.tar-");
    assert_eq!(resolve_prefix(None, &PathBuf::from(".hidden")), ".hidden-");
    assert_eq!(resolve_prefix(None, &PathBuf::from("plain")), "plain-");
}

#[test]
fn resolved_prefixes_have_the_promised_shape() {
    let given = ["", "a", "a-", "--", "x y", "Üb", "a//b", "rendered"];
    for prefix in given {
        let resolved = resolve_prefix(Some(prefix), &PathBuf::from("in.pdf"));
        assert!(resolved.ends_with('-'));
        assert!(!resolved.ends_with("--"));
        assert!(resolved.len() >= 2);
        assert!(has_sanitized_shape(&resolved[..resolved.len() - 1]));
    }
}
