use bashable_notes::options::{CodeBlockOptions, JsonEntry, JsonField};

#[test]
fn parse_reads_all_three_directives() {
    let options = CodeBlockOptions::parse("{\"hide\": false, \"name\": \"run.sh\", \"cmd\": \"bash run.sh\"}")
        .expect("an object with fitting members");
    assert_eq!(options.hide, Some(false));
    assert_eq!(options.name.as_deref(), Some("run.sh"));
    assert_eq!(options.cmd.as_deref(), Some("bash run.sh"));
}

#[test]
fn parse_of_an_empty_object_gives_no_directives() {
    let options = CodeBlockOptions::parse("{}").expect("an object");
    assert_eq!(options.hide, None);
    assert_eq!(options.name, None);
    assert_eq!(options.cmd, None);
}

#[test]
fn parse_takes_null_for_absent() {
    let options = CodeBlockOptions::parse("{\"hide\": null, \"name\": null, \"cmd\": \"ls\"}\n")
        .expect("an object");
    assert_eq!(options.hide, None);
    assert_eq!(options.name, None);
    assert_eq!(options.cmd.as_deref(), Some("ls"));
}

#[test]
fn parse_passes_over_other_keys() {
    let options = CodeBlockOptions::parse("{\"lang\": [1, 2], \"cmd\": \"ls\", \"x\": {\"y\": 1}}")
        .expect("an object");
    assert_eq!(options.cmd.as_deref(), Some("ls"));
    assert_eq!(options.name, None);
}

#[test]
fn parse_refuses_what_is_no_object() {
    assert!(CodeBlockOptions::parse("echo hello").is_none());
    assert!(CodeBlockOptions::parse("").is_none());
    assert!(CodeBlockOptions::parse("[true, \"a\", \"b\"]").is_none());
    assert!(CodeBlockOptions::parse("\"cmd\"").is_none());
    assert!(CodeBlockOptions::parse("null").is_none());
    assert!(CodeBlockOptions::parse("{\"cmd\": \"ls\"").is_none());
    assert!(CodeBlockOptions::parse("{\"cmd\": \"ls\"} trailing").is_none());
}

#[test]
fn parse_refuses_members_of_the_wrong_kind() {
    assert!(CodeBlockOptions::parse("{\"hide\": \"yes\"}").is_none());
    assert!(CodeBlockOptions::parse("{\"name\": 3}").is_none());
    assert!(CodeBlockOptions::parse("{\"cmd\": [\"ls\"]}").is_none());
    assert!(CodeBlockOptions::parse("{\"cmd\": {\"a\": 1}}").is_none());
    assert!(CodeBlockOptions::parse("{\"name\": true}").is_none());
}

#[test]
fn from_entries_reads_members_by_key() {
    let entries = vec![
        JsonEntry { key: "other".to_string(), value: JsonField::Number },
        JsonEntry { key: "cmd".to_string(), value: JsonField::Text("make".to_string()) },
        JsonEntry { key: "hide".to_string(), value: JsonField::Bool(true) },
    ];
    let options = CodeBlockOptions::from_entries(&entries).expect("fitting members");
    assert_eq!(options.hide, Some(true));
    assert_eq!(options.name, None);
    assert_eq!(options.cmd.as_deref(), Some("make"));
}

#[test]
fn from_entries_refuses_a_member_that_does_not_fit() {
    let entries = vec![
        JsonEntry { key: "cmd".to_string(), value: JsonField::Text("make".to_string()) },
        JsonEntry { key: "name".to_string(), value: JsonField::Object },
    ];
    assert!(CodeBlockOptions::from_entries(&entries).is_none());
    let entries = vec![JsonEntry { key: "hide".to_string(), value: JsonField::Array }];
    assert!(CodeBlockOptions::from_entries(&entries).is_none());
}

#[test]
fn from_entries_of_nothing_gives_no_directives() {
    let options = CodeBlockOptions::from_entries(&Vec::new()).expect("nothing to refuse");
    assert_eq!(options.hide, None);
    assert_eq!(options.name, None);
    assert_eq!(options.cmd, None);
}

#[test]
fn default_options_are_empty() {
    let options = CodeBlockOptions::default();
    assert_eq!(options.hide, None);
    assert_eq!(options.name, None);
    assert_eq!(options.cmd, None);
}
