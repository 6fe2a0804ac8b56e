use pie::template::{TemplateError, Vars};

#[test]
fn expands_and_trims() {
    let mut vars = Vars::new();
    vars.set("version", "v22.11.0").set("arch", "x64");
    assert_eq!(
        vars.expand("node-{{version}}-linux-{{ arch }}").unwrap(),
        "node-v22.11.0-linux-x64"
    );
}

#[test]
fn unknown_variable_is_an_error() {
    assert!(Vars::new().expand("{{nope}}").is_err());
}

#[test]
fn leaves_plain_text_alone() {
    assert_eq!(Vars::new().expand("make -j4").unwrap(), "make -j4");
}

#[test]
fn unknown_variables_are_named_beside_the_known_ones() {
    let mut vars = Vars::new();
    vars.set("version", "1").set("arch", "x64");
    let err = vars.expand("a {{ nope }} {{version").unwrap_err();
    assert_eq!(
        err.message(),
        "unknown template variable '{{nope}}' (known: arch, version)"
    );
    assert!(matches!(err, TemplateError::Unknown { .. }));
}

#[test]
fn unterminated_placeholders_are_an_error() {
    let err = Vars::new().expand("a {{ b").unwrap_err();
    assert_eq!(err.message(), "unterminated '{{' in template: a {{ b");
}

#[test]
fn the_last_value_set_counts() {
    let mut vars = Vars::default();
    vars.set("a", "1");
    vars.set("a", "2");
    assert_eq!(vars.get("a"), Some("2"));
    assert_eq!(vars.get("b"), None);
    assert_eq!(vars.clone().expand("{{a}}{{a}}").unwrap(), "22");
}

#[test]
fn values_are_not_expanded_again() {
    let mut vars = Vars::new();
    vars.set("a", "{{b}}").set("b", "x");
    assert_eq!(vars.expand("{{a}}").unwrap(), "{{b}}");
}

#[test]
fn variables_are_listed_in_order() {
    let mut vars = Vars::new();
    vars.set("b", "2").set("a", "1").set("c", "3");
    let names: Vec<&str> = vars.iter().iter().map(|(key, _)| key.as_str()).collect();
    assert_eq!(names, vec!["a", "b", "c"]);
}

#[test]
fn further_variables_change_nothing() {
    let mut vars = Vars::new();
    vars.set("a", "1");
    let before = vars.expand("x{{a}}y").unwrap();
    vars.set("b", "2");
    assert_eq!(vars.expand("x{{a}}y").unwrap(), before);
}
