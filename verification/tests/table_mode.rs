use issueboss::model::ParseError;
use issueboss::table::parse_table;

#[test]
fn scalar_and_one_table() {
    let doc = parse_table(
        "title = \"v1\"\n\n[\"Fix bug\"]\ndescription = \"Crashes\"\nowner = \"alice\"\n",
    )
    .unwrap();
    let meta = doc.metadata.as_ref().expect("document metadata expected");
    assert_eq!(meta.get("title").unwrap().as_str(), "v1");
    assert_eq!(doc.issues.len(), 1);
    let issue = &doc.issues[0];
    assert_eq!(issue.title.as_str(), "Fix bug");
    assert_eq!(issue.description.as_str(), "Crashes");
    let imeta = issue.metadata.as_ref().expect("issue metadata expected");
    assert_eq!(imeta.get("owner").unwrap().as_str(), "alice");
    assert!(imeta.get("description").is_none());
}

#[test]
fn top_level_scalar_never_reaches_issue_metadata() {
    let doc = parse_table("milestone = \"m3\"\n\n[One]\ndescription = \"d\"\n").unwrap();
    let meta = doc.metadata.as_ref().unwrap();
    assert_eq!(meta.get("milestone").unwrap().as_str(), "m3");
    assert_eq!(doc.issues.len(), 1);
    match &doc.issues[0].metadata {
        None => {}
        Some(m) => assert!(m.get("milestone").is_none()),
    }
}

#[test]
fn description_key_is_reserved_regardless_of_order() {
    let doc = parse_table("[A]\nowner = \"bob\"\ndescription = \"late\"\n").unwrap();
    let issue = &doc.issues[0];
    assert_eq!(issue.description.as_str(), "late");
    let imeta = issue.metadata.as_ref().unwrap();
    assert!(imeta.get("description").is_none());
    assert_eq!(imeta.get("owner").unwrap().as_str(), "bob");
}

#[test]
fn table_without_description_gets_empty_description() {
    let doc = parse_table("[A]\nowner = \"bob\"\n").unwrap();
    assert_eq!(doc.issues[0].description.as_str(), "");
}

#[test]
fn table_with_only_description_has_no_metadata() {
    let doc = parse_table("[A]\ndescription = \"d\"\n").unwrap();
    assert_eq!(doc.issues[0].description.as_str(), "d");
    assert!(doc.issues[0].metadata.is_none());
}

#[test]
fn several_tables_in_source_order() {
    let doc = parse_table("[A]\ndescription = \"a\"\n\n[B]\ndescription = \"b\"\n\n[C]\n").unwrap();
    assert_eq!(doc.issues.len(), 3);
    assert_eq!(doc.issues[0].title.as_str(), "A");
    assert_eq!(doc.issues[1].title.as_str(), "B");
    assert_eq!(doc.issues[2].title.as_str(), "C");
}

#[test]
fn empty_source_is_an_empty_document() {
    let doc = parse_table("").unwrap();
    assert!(doc.metadata.is_none());
    assert_eq!(doc.issues.len(), 0);
}

#[test]
fn non_string_top_level_scalar_is_a_value_error() {
    let err = parse_table("a = 1\n").unwrap_err();
    assert_eq!(err, ParseError::Value);
}

#[test]
fn non_string_table_scalar_is_a_value_error() {
    let err = parse_table("[t]\ncount = 3\n").unwrap_err();
    assert_eq!(err, ParseError::Value);
}

#[test]
fn unparsable_source_is_a_format_error() {
    let err = parse_table("not [ valid toml").unwrap_err();
    assert_eq!(err, ParseError::Format);
}

#[test]
fn bare_table_key_with_space_is_a_format_error() {
    let err = parse_table("[Fix bug]\ndescription = \"Crashes\"\n").unwrap_err();
    assert_eq!(err, ParseError::Format);
}
