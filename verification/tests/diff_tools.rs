use rustygit::diff::contains_substring;
use rustygit::diff::path_matches_any;
use rustygit::diff::tally_patch_lines;

#[test]
fn tally_counts_added_and_deleted_lines() {
    let origins = vec!['+', '+', '-', ' ', '+', 'H', '-'];
    let (additions, deletions) = tally_patch_lines(&origins);
    assert_eq!(additions, 3);
    assert_eq!(deletions, 2);
}

#[test]
fn tally_of_empty_patch_is_zero() {
    let origins: Vec<char> = Vec::new();
    assert_eq!(tally_patch_lines(&origins), (0, 0));
}

#[test]
fn substring_is_found_anywhere_in_the_path() {
    assert!(contains_substring("src/commits/logic.rs", "logic"));
    assert!(contains_substring("src/commits/logic.rs", "src/"));
    assert!(contains_substring("src/commits/logic.rs", "logic.rs"));
    assert!(!contains_substring("src/commits/logic.rs", "model"));
    assert!(!contains_substring("abc", "abcd"));
}

#[test]
fn empty_needle_is_always_contained() {
    assert!(contains_substring("anything", ""));
    assert!(contains_substring("", ""));
}

#[test]
fn path_matches_any_of_the_targets() {
    let targets = vec![String::from("model.rs"), String::from("logic.rs")];
    assert!(path_matches_any("src/commits/logic.rs", &targets));
    assert!(!path_matches_any("src/commits/other.rs", &targets));
    let none: Vec<String> = Vec::new();
    assert!(!path_matches_any("src/commits/logic.rs", &none));
}
