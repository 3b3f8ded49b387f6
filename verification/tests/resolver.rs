use rustygit::ResolveError;
use rustygit::get_repository_relative_path;
use rustygit::resolve;

#[test]
fn resolves_file_under_workdir() {
    let r = resolve("/home/dev/proj/src/main.rs", "/home/dev/proj", false);
    assert_eq!(r.unwrap(), "src/main.rs");
}

#[test]
fn workdir_itself_gives_empty_relative_path() {
    let r = resolve("/home/dev/proj", "/home/dev/proj", false);
    assert_eq!(r.unwrap(), "");
}

#[test]
fn path_outside_workdir_fails() {
    let r = resolve("/home/dev/other/file.txt", "/home/dev/proj", false);
    match r {
        Err(ResolveError::PathOutsideRepository { absolute_path, working_directory }) => {
            assert_eq!(absolute_path, "/home/dev/other/file.txt");
            assert_eq!(working_directory, "/home/dev/proj");
        }
        _ => panic!("expected PathOutsideRepository"),
    }
}

#[test]
fn case_insensitive_mode_matches_across_case() {
    let r = resolve("/home/dev/proj/README.md", "/Home/Dev/Proj", true);
    assert_eq!(r.unwrap(), "README.md");
}

#[test]
fn case_sensitive_mode_rejects_across_case() {
    let r = resolve("/home/dev/proj/README.md", "/Home/Dev/Proj", false);
    assert!(matches!(r, Err(ResolveError::PathOutsideRepository { .. })));
}

#[test]
fn trailing_separator_on_workdir_is_ignored() {
    let r = resolve("/repo/a/b.txt", "/repo/", false);
    assert_eq!(r.unwrap(), "a/b.txt");
}

#[test]
fn trailing_separator_on_path_is_ignored() {
    let r = resolve("/repo/a/", "/repo/", false);
    assert_eq!(r.unwrap(), "a");
}

#[test]
fn sibling_with_common_name_prefix_is_outside() {
    let r = resolve("/repository/file", "/repo", false);
    assert!(matches!(r, Err(ResolveError::PathOutsideRepository { .. })));
}

#[test]
fn backslash_separators_are_canonicalized() {
    let r = resolve("C:\\repo\\src\\main.rs", "C:\\repo", false);
    assert_eq!(r.unwrap(), "src/main.rs");
}

#[test]
fn extended_path_prefix_is_stripped() {
    let r = resolve("\\\\?\\C:\\repo\\a.txt", "C:\\repo", false);
    assert_eq!(r.unwrap(), "a.txt");
    let r = resolve("//?/C:/repo/a.txt", "//?/C:/repo", false);
    assert_eq!(r.unwrap(), "a.txt");
}

#[test]
fn resolving_rejoined_result_is_idempotent() {
    let w = "/home/dev/proj";
    let first = resolve("/home/dev/proj/src/lib.rs", w, false).unwrap();
    let rejoined = format!("{}/{}", w, first);
    let second = resolve(&rejoined, w, false).unwrap();
    assert_eq!(second, first);
}

#[test]
fn case_flag_changes_outcome_only_for_case_differences() {
    // Differ solely by letter case: flag decides.
    assert!(resolve("/A/b", "/a", false).is_err());
    assert_eq!(resolve("/A/b", "/a", true).unwrap(), "b");
    // Differ beyond case: flag is irrelevant.
    assert!(resolve("/x/b", "/a", false).is_err());
    assert!(resolve("/x/b", "/a", true).is_err());
    // Identical: flag is irrelevant.
    assert_eq!(resolve("/a/b", "/a", false).unwrap(), "b");
    assert_eq!(resolve("/a/b", "/a", true).unwrap(), "b");
}

#[test]
fn repeated_separators_contribute_no_segments() {
    let r = resolve("/repo//a///b.txt", "/repo", false);
    assert_eq!(r.unwrap(), "a/b.txt");
}

#[test]
fn path_shorter_than_workdir_is_outside() {
    let r = resolve("/home/dev", "/home/dev/proj", false);
    assert!(matches!(r, Err(ResolveError::PathOutsideRepository { .. })));
}

#[test]
fn empty_workdir_makes_every_path_relative() {
    // An empty working directory has no segments, so every path's segment
    // sequence extends it; the whole path comes back relative.
    let r = resolve("/a/b", "", false);
    assert_eq!(r.unwrap(), "a/b");
}

#[test]
fn bare_repository_has_no_workdir_to_resolve_against() {
    let r = get_repository_relative_path("/home/dev/proj/file", None, false);
    assert!(matches!(r, Err(ResolveError::BareRepositoryUnsupported)));
}

#[test]
fn reported_workdir_is_resolved_against() {
    let r = get_repository_relative_path("/home/dev/proj/file", Some("/home/dev/proj"), false);
    assert_eq!(r.unwrap(), "file");
}
