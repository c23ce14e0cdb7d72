use issueboss::model::{Document, Issue, Metadata};
use issueboss::submit::{cmd_gitlab, failed_titles, is_affirmative, plan_submissions, GitlabOpt};

fn issue(title: &str, description: &str) -> Issue {
    Issue {
        metadata: None,
        title: String::from(title),
        description: String::from(description),
    }
}

fn three_issue_doc() -> Document {
    Document {
        metadata: None,
        issues: vec![issue("A", "da"), issue("B", "db"), issue("C", "dc")],
    }
}

#[test]
fn affirmative_answers() {
    assert!(is_affirmative("y"));
    assert!(is_affirmative("Y"));
    assert!(is_affirmative("y\n"));
    assert!(is_affirmative("  Y \n"));
}

#[test]
fn unicode_whitespace_around_the_answer_is_trimmed() {
    assert!(is_affirmative("\u{000B}y\n"));
    assert!(is_affirmative("\u{000C}Y"));
    assert!(is_affirmative("\u{00A0}y\u{3000}"));
    assert!(is_affirmative("y\u{2028}"));
    assert_eq!(is_affirmative("\u{000B}y\n"), "\u{000B}y\n".trim().to_lowercase() == "y");
    assert_eq!(is_affirmative("\u{2003}q\n"), "\u{2003}q\n".trim().to_lowercase() == "y");
    assert!(!is_affirmative("\u{000B}\n"));
}

#[test]
fn non_affirmative_answers() {
    assert!(!is_affirmative(""));
    assert!(!is_affirmative("n"));
    assert!(!is_affirmative("\n"));
    assert!(!is_affirmative("yes"));
    assert!(!is_affirmative("y y"));
    assert!(!is_affirmative("q\n"));
}

#[test]
fn negative_answer_plans_no_submission() {
    let doc = three_issue_doc();
    assert_eq!(plan_submissions("board", "list", &doc, "n\n").len(), 0);
    assert_eq!(plan_submissions("board", "list", &doc, "anything\n").len(), 0);
}

#[test]
fn affirmative_answer_plans_one_invocation_per_issue() {
    let doc = three_issue_doc();
    let plan = plan_submissions("myboard", "mylist", &doc, "y\n");
    assert_eq!(plan.len(), 3);
    assert_eq!(
        plan[0],
        vec!["add-card", "-b", "myboard", "-l", "mylist", "-p", "bottom", "A", "da"]
    );
    assert_eq!(plan[1][7].as_str(), "B");
    assert_eq!(plan[2][7].as_str(), "C");
    assert_eq!(plan[2][8].as_str(), "dc");
}

#[test]
fn one_failure_is_reported_and_the_rest_still_attempted() {
    let results: Vec<(String, Vec<u8>)> = vec![
        (String::from("A"), Vec::new()),
        (String::from("B"), b"tracker refused".to_vec()),
        (String::from("C"), Vec::new()),
    ];
    let failed = failed_titles(&results);
    assert_eq!(failed.len(), 1);
    assert_eq!(failed[0].as_str(), "B");
}

#[test]
fn no_failures_reported_when_all_outcomes_are_clean() {
    let results: Vec<(String, Vec<u8>)> = vec![
        (String::from("A"), Vec::new()),
        (String::from("B"), Vec::new()),
    ];
    assert_eq!(failed_titles(&results).len(), 0);
}

#[test]
fn gitlab_command_succeeds_without_work() {
    assert!(cmd_gitlab(GitlabOpt {}).is_ok());
}

#[test]
fn metadata_insert_replaces_existing_key() {
    let mut m = Metadata::new();
    m.insert(String::from("k"), String::from("v1"));
    m.insert(String::from("k"), String::from("v2"));
    m.insert(String::from("other"), String::from("x"));
    assert_eq!(m.get("k").unwrap().as_str(), "v2");
    assert_eq!(m.get("other").unwrap().as_str(), "x");
    assert!(m.get("missing").is_none());
    assert_eq!(m.pairs().len(), 2);
}
