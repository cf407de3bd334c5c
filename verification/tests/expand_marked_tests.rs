use omake::expand::expand;
use omake::vars::Vars;

/// The store made of `init`, in which the variables named by `deferred` are
/// then marked as deferred, their values kept.
fn store<const N: usize>(init: [(&str, &str); N], deferred: &[&str]) -> Vars {
    let mut vars = Vars::new(init);
    for name in deferred {
        let value = vars.get(name).value.clone();
        vars.set(name, &value, true).unwrap();
    }
    vars
}

#[test]
fn test_basic_single_letter_expansions() {
    let vars = store([("A", "VALUE A"), ("B", "VALUE B")], &[]);
    assert_eq!(expand("$A", &vars).unwrap(), "VALUE A",);
    assert_eq!(
        expand("$A with some text.", &vars).unwrap(),
        "VALUE A with some text.",
    );
    assert_eq!(
        expand("Some leading text and $A.", &vars).unwrap(),
        "Some leading text and VALUE A.",
    );
    assert_eq!(
        expand("Both vars: $A and $B.", &vars).unwrap(),
        "Both vars: VALUE A and VALUE B.",
    );
}

#[test]
fn test_basic_long_expansions() {
    let vars = store([("TESTA", "VALUE A"), ("TESTB", "VALUE B")], &[]);
    assert_eq!(expand("$(TESTA)", &vars).unwrap(), "VALUE A");
    assert_eq!(
        expand("${TESTA} and $(TESTB)", &vars).unwrap(),
        "VALUE A and VALUE B",
    );
    assert_eq!(
        expand("Leading text and $(TESTA) and $(TESTB).", &vars).unwrap(),
        "Leading text and VALUE A and VALUE B.",
    );
}

#[test]
fn test_basic_nested_expansions() {
    let vars = store([("A", "B"), ("B", "VALUE1"), ("CD", "VALUE2"), ("E", "D")], &[]);
    assert_eq!(
        expand("This is $($(A))!", &vars).unwrap(),
        "This is VALUE1!",
    );
    assert_eq!(
        expand("This is $(${A})!", &vars).unwrap(),
        "This is VALUE1!",
    );
    assert_eq!(
        expand("This is ${$(A)}!", &vars).unwrap(),
        "This is VALUE1!",
    );
    assert_eq!(
        expand("This is $(${A})!", &vars).unwrap(),
        "This is VALUE1!",
    );
    assert_eq!(
        expand("This is ${${A}}!", &vars).unwrap(),
        "This is VALUE1!",
    );
    assert_eq!(
        expand("This is ${C$(E)}!", &vars).unwrap(),
        "This is VALUE2!",
    );
}

#[test]
fn test_escape_dollar_sign() {
    let vars = store([("A", "B")], &[]);
    assert_eq!(expand("This is $$A!", &vars).unwrap(), "This is $A!",);
    assert_eq!(expand("This is $${A}!", &vars).unwrap(), "This is ${A}!",);
    assert_eq!(expand("This is $$${A}!", &vars).unwrap(), "This is $B!",);
}

#[test]
fn test_not_recursive() {
    let vars = store([("A", "B"), ("C", "${A}")], &[]);
    assert_eq!(expand("Test ${C}", &vars).unwrap(), "Test ${A}");
}

#[test]
fn test_recursive() {
    let vars = store([("A", "B"), ("C", "${A}")], &["C"]);
    assert_eq!(expand("Test ${C}", &vars).unwrap(), "Test B");
}

#[test]
fn test_double_recursive() {
    let vars = store([("A", "B"), ("C", "${A}"), ("D", "$(C)")], &["C", "D"]);
    assert_eq!(expand("Test ${D}", &vars).unwrap(), "Test B");
}

#[test]
fn test_intermediate_not_recursive() {
    let vars = store([("A", "B"), ("C", "${A}"), ("D", "$(C)")], &["A", "D"]);
    assert_eq!(expand("Test ${D}", &vars).unwrap(), "Test ${A}");
}

#[test]
fn test_recursion_on_simple_value_works() {
    let vars = store([("A", "B"), ("C", "${A}"), ("D", "$(C)")], &["A", "C", "D"]);
    assert_eq!(expand("Test ${D}", &vars).unwrap(), "Test B");
}

#[test]
fn test_nested_variable_without_closing_delimiter() {
    let vars = store([("TEST", "Value")], &[]);
    assert!(expand("${TEST", &vars).is_err());
}
