use peach::subst::{replace_vars, VarTable};

#[test]
fn test_basic_replacement() {
    let mut variables = VarTable::new();
    variables.insert("name", "Mati");
    variables.insert("greeting", "Hello");

    let haystack = "%{greeting}, %{name}!";
    assert_eq!(replace_vars(haystack, &variables).unwrap(), "Hello, Mati!");
}

#[test]
fn test_missing_variable() {
    let variables = VarTable::new();
    let haystack = "Hi %{name}!";

    assert_eq!(replace_vars(haystack, &variables), Err("name".to_string()));
}

#[test]
fn test_multiple_occurrences() {
    let mut variables = VarTable::new();
    variables.insert("word", "rust");

    let haystack = "I love %{word}! %{word} is great!";
    assert_eq!(
        replace_vars(haystack, &variables).unwrap(),
        "I love rust! rust is great!"
    );
}

#[test]
fn test_multiple_missing_variables() {
    let variables = VarTable::new();
    let haystack = "Hi %{name}, welcome to %{city}!";

    assert_eq!(replace_vars(haystack, &variables), Err("name".to_string()));
}

#[test]
fn no_placeholders_is_identity() {
    let mut variables = VarTable::new();
    variables.insert("name", "Mati");
    let haystack = "plain text, no variables at all";
    assert_eq!(replace_vars(haystack, &variables).unwrap(), haystack);
}

#[test]
fn empty_haystack() {
    let variables = VarTable::new();
    assert_eq!(replace_vars("", &variables).unwrap(), "");
}

#[test]
fn empty_name_is_not_a_placeholder() {
    let variables = VarTable::new();
    assert_eq!(replace_vars("a %{} b", &variables).unwrap(), "a %{} b");
}

#[test]
fn unclosed_placeholder_is_copied() {
    let variables = VarTable::new();
    assert_eq!(replace_vars("a %{name", &variables).unwrap(), "a %{name");
}

#[test]
fn later_binding_overrides_earlier() {
    let mut variables = VarTable::new();
    variables.insert("v", "old");
    variables.insert("v", "new");
    assert_eq!(replace_vars("%{v}", &variables).unwrap(), "new");
}

#[test]
fn substitution_is_idempotent_on_result() {
    let mut variables = VarTable::new();
    variables.insert("version", "1.2.3");
    let once = replace_vars("pkg-%{version}/%{version}.tar.gz", &variables).unwrap();
    assert_eq!(once, "pkg-1.2.3/1.2.3.tar.gz");
    let twice = replace_vars(&once, &variables).unwrap();
    assert_eq!(twice, once);
}

#[test]
fn lookup_is_case_sensitive() {
    let mut variables = VarTable::new();
    variables.insert("Name", "Mati");
    assert_eq!(replace_vars("%{name}", &variables), Err("name".to_string()));
}
