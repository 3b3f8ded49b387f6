use rustygit::Branch;
use rustygit::Commit;
use rustygit::DiffEntry;

#[test]
fn diff_entry_keeps_its_parts() {
    let e = DiffEntry::new(String::from("src/main.rs"), 7, 2);
    assert_eq!(e.path, "src/main.rs");
    assert_eq!(e.additions, 7);
    assert_eq!(e.deletions, 2);
}

#[test]
fn commit_from_parts_keeps_given_values() {
    let c = Commit::from_parts(
        String::from("abc123"),
        Some(String::from("Ada")),
        Some(String::from("ada@example.com")),
        100,
        Some(String::from("Grace")),
        Some(String::from("grace@example.com")),
        200,
        Some(String::from("first commit")),
        vec![String::from("parent1"), String::from("parent2")],
    );
    assert_eq!(c.hash, "abc123");
    assert_eq!(c.author, "Ada");
    assert_eq!(c.author_email, "ada@example.com");
    assert_eq!(c.author_time, 100);
    assert_eq!(c.committer, "Grace");
    assert_eq!(c.committer_email, "grace@example.com");
    assert_eq!(c.commit_time, 200);
    assert_eq!(c.message, "first commit");
    assert_eq!(c.parents, vec!["parent1", "parent2"]);
}

#[test]
fn commit_from_parts_defaults_missing_values_to_empty() {
    let c = Commit::from_parts(
        String::from("abc123"),
        None,
        None,
        0,
        None,
        None,
        0,
        None,
        Vec::new(),
    );
    assert_eq!(c.author, "");
    assert_eq!(c.author_email, "");
    assert_eq!(c.committer, "");
    assert_eq!(c.committer_email, "");
    assert_eq!(c.message, "");
    assert!(c.parents.is_empty());
}

#[test]
fn branch_reports_its_name_and_kind() {
    let b = Branch::new(String::from("main"), false);
    assert_eq!(b.name(), "main");
    assert!(!b.is_remote());
    let b = Branch::new(String::from("origin/main"), true);
    assert_eq!(b.name(), "origin/main");
    assert!(b.is_remote());
}
