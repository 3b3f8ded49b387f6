use rustygit::blame::BlameAttribution;
use rustygit::blame::build_blame_lines;

fn attribution(hash: &str, author: &str) -> BlameAttribution {
    BlameAttribution {
        commit_hash: String::from(hash),
        author: String::from(author),
        author_email: format!("{}@example.com", author),
        author_time: 11,
        committer: String::from("orig"),
        commit_time: 22,
        summary: String::from("change"),
    }
}

#[test]
fn attributed_lines_are_numbered_from_one_in_order() {
    let lines = vec![
        String::from("first line"),
        String::from("second line"),
        String::from("third line"),
    ];
    let attrs = vec![
        Some(attribution("aaa", "ada")),
        None,
        Some(attribution("bbb", "grace")),
    ];
    let r = build_blame_lines(lines, attrs);
    assert_eq!(r.len(), 2);
    assert_eq!(r[0].line_number, 1);
    assert_eq!(r[0].content, "first line");
    assert_eq!(r[0].commit_hash, "aaa");
    assert_eq!(r[0].author, "ada");
    assert_eq!(r[0].author_email, "ada@example.com");
    assert_eq!(r[0].author_time, 11);
    assert_eq!(r[0].committer, "orig");
    assert_eq!(r[0].commit_time, 22);
    assert_eq!(r[0].summary, "change");
    assert_eq!(r[1].line_number, 3);
    assert_eq!(r[1].content, "third line");
    assert_eq!(r[1].commit_hash, "bbb");
    assert_eq!(r[1].author, "grace");
}

#[test]
fn unattributed_lines_produce_no_records() {
    let lines = vec![String::from("a"), String::from("b")];
    let attrs: Vec<Option<BlameAttribution>> = vec![None, None];
    let r = build_blame_lines(lines, attrs);
    assert!(r.is_empty());
}

#[test]
fn empty_file_produces_no_records() {
    let r = build_blame_lines(Vec::new(), Vec::new());
    assert!(r.is_empty());
}
