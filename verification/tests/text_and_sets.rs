use branch_sweep::classify::collect_deletable;
use branch_sweep::text::split_lines;
use branch_sweep::text::str_eq;
use branch_sweep::text::str_le;
use branch_sweep::text::trim_trailing_newlines;

fn strings(items: &[&str]) -> Vec<String> {
    items.iter().map(|s| s.to_string()).collect()
}

#[test]
fn split_lines_basic() {
    assert_eq!(split_lines("feat-a\nfeat-b\nmain"), strings(&["feat-a", "feat-b", "main"]));
}

#[test]
fn split_lines_single() {
    assert_eq!(split_lines("main"), strings(&["main"]));
}

#[test]
fn split_lines_keeps_empty_segments() {
    assert_eq!(split_lines("a\n\nb\n"), strings(&["a", "", "b", ""]));
}

#[test]
fn trim_trailing_newlines_cases() {
    assert_eq!(trim_trailing_newlines("yes\n"), "yes");
    assert_eq!(trim_trailing_newlines("yes\n\n"), "yes");
    assert_eq!(trim_trailing_newlines("yes"), "yes");
    assert_eq!(trim_trailing_newlines(""), "");
    assert_eq!(trim_trailing_newlines("a\nb\n"), "a\nb");
}

#[test]
fn str_eq_cases() {
    assert!(str_eq("feat-a", "feat-a"));
    assert!(!str_eq("feat-a", "feat-b"));
    assert!(!str_eq("feat", "feat-a"));
    assert!(str_eq("", ""));
}

#[test]
fn str_le_is_lexicographic() {
    assert!(str_le("alpha", "beta"));
    assert!(!str_le("beta", "alpha"));
    assert!(str_le("ab", "abc"));
    assert!(!str_le("abc", "ab"));
    assert!(str_le("", "a"));
    assert!(str_le("abc", "abc"));
    // Code-point order: 'z' (U+007A) comes before 'é' (U+00E9).
    assert!(str_le("z", "é"));
    assert!(!str_le("é", "z"));
}

#[test]
fn collect_deletable_unions_and_sorts() {
    let merged = strings(&["zeta", "alpha"]);
    let squashed = strings(&["mid"]);
    let r = collect_deletable("main", &merged, &squashed);
    assert_eq!(r, strings(&["alpha", "mid", "zeta"]));
}

#[test]
fn collect_deletable_deduplicates() {
    // A branch that both detections report appears exactly once.
    let merged = strings(&["feat-a", "feat-b"]);
    let squashed = strings(&["feat-b"]);
    let r = collect_deletable("main", &merged, &squashed);
    assert_eq!(r, strings(&["feat-a", "feat-b"]));
}

#[test]
fn collect_deletable_excludes_base() {
    let merged = strings(&["feat-a", "main"]);
    let squashed = strings(&["main"]);
    let r = collect_deletable("main", &merged, &squashed);
    assert_eq!(r, strings(&["feat-a"]));
}

#[test]
fn collect_deletable_is_stable() {
    // The same repository state presents the same list, in the same order.
    let merged = strings(&["b", "a", "c"]);
    let squashed = strings(&["c", "d", "a"]);
    let first = collect_deletable("main", &merged, &squashed);
    let second = collect_deletable("main", &merged, &squashed);
    assert_eq!(first, second);
    assert_eq!(first, strings(&["a", "b", "c", "d"]));
}

#[test]
fn collect_deletable_empty() {
    let none: Vec<String> = Vec::new();
    let r = collect_deletable("main", &none, &none);
    assert!(r.is_empty());
}
