use omake::expand::expand;
use omake::vars::Vars;

#[test]
fn expand_test_basic_single_letter_expansions() {
    let vars = Vars::new([("A", "VALUE A"), ("B", "VALUE B")]);
    assert_eq!(expand("$A", &vars).unwrap(), "VALUE A");
    assert_eq!(
        expand("$A with some text.", &vars).unwrap(),
        "VALUE A with some text.",
    );
    assert_eq!(
        expand("Some leading text and $A.", &vars).unwrap(),
        "Some leading text and VALUE A.",
    );
    assert_eq!(
        expand("Both vars: $A and $B.", &vars).unwrap(),
        "Both vars: VALUE A and VALUE B.",
    );
}

#[test]
fn expand_test_basic_long_expansions() {
    let vars = Vars::new([("TESTA", "VALUE A"), ("TESTB", "VALUE B")]);
    assert_eq!(expand("$(TESTA)", &vars).unwrap(), "VALUE A");
    assert_eq!(
        expand("${TESTA} and $(TESTB)", &vars).unwrap(),
        "VALUE A and VALUE B",
    );
    assert_eq!(
        expand("Leading text and $(TESTA) and $(TESTB).", &vars).unwrap(),
        "Leading text and VALUE A and VALUE B.",
    );
}

#[test]
fn expand_test_basic_nested_expansions() {
    let vars = Vars::new([("A", "B"), ("B", "VALUE1"), ("CD", "VALUE2"), ("E", "D")]);
    assert_eq!(
        expand("This is $($(A))!", &vars).unwrap(),
        "This is VALUE1!",
    );

    // Both kinds of delimiters, nested in each other.
    assert_eq!(
        expand("This is $(${A})!", &vars).unwrap(),
        "This is VALUE1!",
    );
    assert_eq!(
        expand("This is ${$(A)}!", &vars).unwrap(),
        "This is VALUE1!",
    );
    assert_eq!(
        expand("This is ${${A}}!", &vars).unwrap(),
        "This is VALUE1!",
    );

    // A name made of plain text and a nested expression.
    assert_eq!(
        expand("This is ${C$(E)}!", &vars).unwrap(),
        "This is VALUE2!",
    );
}

#[test]
fn expand_test_escape_dollar_sign() {
    let vars = Vars::new([("A", "B")]);
    assert_eq!(expand("This is $$A!", &vars).unwrap(), "This is $A!");
    assert_eq!(expand("This is $${A}!", &vars).unwrap(), "This is ${A}!");
    assert_eq!(expand("This is $$${A}!", &vars).unwrap(), "This is $B!");
}

#[test]
fn expand_test_not_recursive() {
    let vars = Vars::new([("A", "B"), ("C", "${A}")]);
    assert_eq!(expand("Test ${C}", &vars).unwrap(), "Test ${A}");
}

#[test]
fn expand_test_recursive() {
    let mut vars = Vars::new([("A", "B")]);
    vars.set("C", "${A}", true).unwrap();
    assert_eq!(expand("Test ${C}", &vars).unwrap(), "Test B");
}

#[test]
fn expand_test_double_recursive() {
    let mut vars = Vars::new([("A", "B")]);
    for (k, v) in [("C", "${A}"), ("D", "$(C)")] {
        vars.set(k, v, true).unwrap();
    }
    assert_eq!(expand("Test ${D}", &vars).unwrap(), "Test B");
}

#[test]
fn expand_test_intermediate_not_recursive() {
    let mut vars = Vars::new([("C", "${A}")]);
    for (k, v) in [("A", "B"), ("D", "$(C)")] {
        vars.set(k, v, true).unwrap();
    }
    assert_eq!(expand("Test ${D}", &vars).unwrap(), "Test ${A}");
}

#[test]
fn expand_test_recursion_on_simple_value_works() {
    let mut vars = Vars::new([]);
    for (k, v) in [("A", "B"), ("C", "${A}"), ("D", "$(C)")] {
        vars.set(k, v, true).unwrap();
    }
    assert_eq!(expand("Test ${D}", &vars).unwrap(), "Test B");
}

#[test]
fn expand_test_nested_variable_without_closing_delimiter() {
    let vars = Vars::new([("TEST", "Value")]);
    assert!(expand("${TEST", &vars).is_err());
}

#[test]
fn expand_names_the_outermost_open_expression() {
    let vars = Vars::new([("B", "b")]);
    assert_eq!(
        expand("x$(A ${B", &vars).unwrap_err(),
        "Unclosed variable: (x"
    );
    assert_eq!(expand("${TEST", &vars).unwrap_err(), "Unclosed variable: {");
}

#[test]
fn expand_unmatched_closers_are_text() {
    let vars = Vars::new([("A", "a")]);
    assert_eq!(expand("f(x) {y}", &vars).unwrap(), "f(x) {y}");
    assert_eq!(expand("$(A}) )", &vars).unwrap(), " )");
    // A `$` before a closer that closes nothing waits for the next character.
    assert_eq!(expand("$)A", &vars).unwrap(), ")a");
}

#[test]
fn expand_unknown_names_are_empty() {
    let vars = Vars::new([]);
    assert_eq!(expand("a$(NOPE)b$Zc", &vars).unwrap(), "abc");
    assert_eq!(expand("trailing $", &vars).unwrap(), "trailing ");
}

#[test]
fn expand_single_character_is_not_expanded_again() {
    let mut vars = Vars::new([("A", "B")]);
    vars.set("C", "$(A)", true).unwrap();
    assert_eq!(expand("$C", &vars).unwrap(), "$(A)");
    assert_eq!(expand("$(C)", &vars).unwrap(), "B");
}

#[test]
fn expand_cycle_ends_with_an_error() {
    let mut vars = Vars::new([]);
    vars.set("A", "$(B)", true).unwrap();
    vars.set("B", "$(A)", true).unwrap();
    assert_eq!(
        expand("$(A)", &vars).unwrap_err(),
        "Variable expansion is nested too deeply."
    );
}

#[test]
fn expand_deferred_chain_up_to_the_limit() {
    let mut vars = Vars::new([("V0", "end")]);
    for i in 1..=128 {
        vars.set(&format!("V{}", i), &format!("$(V{})", i - 1), true)
            .unwrap();
    }
    assert_eq!(expand("$(V128)", &vars).unwrap(), "end");
    vars.set("V129", "$(V128)", true).unwrap();
    assert!(expand("$(V129)", &vars).is_err());
}

#[test]
fn expand_dollar_dollar_then_any_character() {
    let vars = Vars::new([("X", "no")]);
    for x in ['X', 'a', '(', ')', '{', '}', ' ', '\t'] {
        let input = format!("$${}", x);
        assert_eq!(expand(&input, &vars).unwrap(), format!("${}", x));
    }
    // The one exception: a third `$` waits for a partner that never comes.
    assert_eq!(expand("$$$", &vars).unwrap(), "$");
}

#[test]
fn expand_reference_to_immediate_variable_is_its_value() {
    let vars = Vars::new([("K", "$(K) as it is"), ("LONG.name", "v")]);
    assert_eq!(expand("$(K)", &vars).unwrap(), vars.get("K").value);
    assert_eq!(expand("${LONG.name}", &vars).unwrap(), "v");
}

#[test]
fn expand_result_is_bounded_by_the_references() {
    // No value, expanded, is longer than 7 characters.
    let mut vars = Vars::new([("A", "1234567"), ("B", ""), ("x", "xy")]);
    vars.set("D", "$(B)$x$(B)", true).unwrap();
    for s in ["", "plain", "$A$A$A", "$(A) and ${D}$x", "$$$$", "$(B$(B))$(D)", "$Z$(ZZ)"] {
        let dollars = s.chars().filter(|c| *c == '$').count();
        let out = expand(s, &vars).unwrap();
        assert!(out.chars().count() <= s.chars().count() + 7 * dollars, "{:?}", s);
    }
    assert_eq!(expand("$A$A$A", &vars).unwrap().len(), 21);
}
