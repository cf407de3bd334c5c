use omake::vars::Vars;

#[test]
fn vars_test_normal_and_default_values() {
    let vars = Vars::new([("A", "B")]);
    assert_eq!(vars.get("A").value, "B");
    assert_eq!(vars.get("B").value, "");
    assert_eq!(vars.get("SHELL").value, "/bin/sh");
    assert_eq!(
        vars.get("COMPILE.c").value,
        "$(CC) $(CFLAGS) $(CPPFLAGS) $(TARGET_ARCH) -c"
    );
}

#[test]
fn vars_test_recipe_prefix() {
    let mut vars = Vars::new([]);
    assert_eq!(vars.get(".RECIPEPREFIX").value, "\t");
    vars.set(".RECIPEPREFIX", "B", false).unwrap();
    assert_eq!(vars.get(".RECIPEPREFIX").value, "B");
    vars.set(".RECIPEPREFIX", "", false).unwrap();
    assert_eq!(vars.get(".RECIPEPREFIX").value, "\t");
}

#[test]
fn test_var_maps() {
    let vars = Vars::new([("A", "B")]);
    assert_eq!(vars.get("A").value, "B");
    assert_eq!(vars.get("B").value, "");
}

#[test]
fn var_test_recipe_prefix() {
    let mut vars = Vars::new([]);
    assert_eq!(vars.get(".RECIPEPREFIX").value, "\t");
    vars.set(".RECIPEPREFIX", "B", false).unwrap();
    assert_eq!(vars.get(".RECIPEPREFIX").value, "B");
    vars.set(".RECIPEPREFIX", "", false).unwrap();
    assert_eq!(vars.get(".RECIPEPREFIX").value, "\t");
}

#[test]
fn test_normal_and_default_values() {
    let vars = Vars::new([("A", "B")]);
    assert_eq!(vars.get("A").value, "B");
    assert_eq!(vars.get("B").value, "");
}

#[test]
fn test_recipe_prefix() {
    let mut vars = Vars::new([]);
    assert_eq!(vars.get(".RECIPEPREFIX").value, "\t");
    vars.set(".RECIPEPREFIX", "B", false).unwrap();
    assert_eq!(vars.get(".RECIPEPREFIX").value, "B");
    vars.set(".RECIPEPREFIX", "", false).unwrap();
    assert_eq!(vars.get(".RECIPEPREFIX").value, "\t");
}

#[test]
fn vars_var_new() {
    let v = omake::vars::Var::new("value", true);
    assert_eq!(v.value, "value");
    assert!(v.recursive);
    let v = omake::vars::Var::new("", false);
    assert_eq!(v.value, "");
    assert!(!v.recursive);
}

#[test]
fn vars_set_then_get() {
    let mut vars = Vars::new([]);
    vars.set("NAME", "v 1", false).unwrap();
    assert_eq!(vars.get("NAME").value, "v 1");
    assert!(!vars.get("NAME").recursive);
    vars.set("NAME", "$(OTHER)", true).unwrap();
    assert_eq!(vars.get("NAME").value, "$(OTHER)");
    assert!(vars.get("NAME").recursive);
    // The last of several assignments counts.
    for v in ["a", "b", "c"] {
        vars.set("K", v, false).unwrap();
    }
    assert_eq!(vars.get("K").value, "c");
    // Another name is left as it was.
    assert_eq!(vars.get("NAME").value, "$(OTHER)");
}

#[test]
fn vars_names_are_trimmed() {
    let mut vars = Vars::new([("  A\t", "1")]);
    assert_eq!(vars.get("A").value, "1");
    assert_eq!(vars.get(" A ").value, "1");
    vars.set("\tB  ", "2", false).unwrap();
    assert_eq!(vars.get("B").value, "2");
    vars.set("", "empty name", false).unwrap();
    assert_eq!(vars.get("   ").value, "empty name");
}

#[test]
fn vars_invalid_names_are_rejected() {
    let mut vars = Vars::new([("A", "1")]);
    assert_eq!(vars.set("A B", "x", false).unwrap_err(), "Variable contains whitespace.");
    assert_eq!(vars.set("A\tB", "x", false).unwrap_err(), "Variable contains whitespace.");
    assert_eq!(vars.set("A:B", "x", false).unwrap_err(), "Variable contains bad character ':'.");
    assert_eq!(vars.set("A#", "x", false).unwrap_err(), "Variable contains bad character '#'.");
    assert_eq!(vars.set("=A", "x", false).unwrap_err(), "Variable contains bad character '='.");
    // The first offending character decides.
    assert_eq!(vars.set("a=b c", "x", false).unwrap_err(), "Variable contains bad character '='.");
    assert_eq!(vars.set("a b=c", "x", false).unwrap_err(), "Variable contains whitespace.");
    // Nothing was stored.
    assert_eq!(vars.get("A").value, "1");
    assert_eq!(vars.get("A B").value, "");
    // A pair with such a name is passed over at construction.
    let vars = Vars::new([("A B", "x"), ("C", "y")]);
    assert_eq!(vars.get("C").value, "y");
    assert_eq!(vars.get("A B").value, "");
}

#[test]
fn vars_defaults_of_reserved_names() {
    let mut vars = Vars::new([]);
    assert_eq!(vars.get("CC").value, "cc");
    assert_eq!(vars.get("AR").value, "ar");
    assert_eq!(vars.get("CXX").value, "c++");
    assert_eq!(vars.get("RM").value, "rm -f");
    assert_eq!(vars.get(".SHELLFLAGS").value, "-c");
    assert_eq!(
        vars.get("SUFFIXES").value,
        ".C .F .S .c .cc .cpp .def .f .m .mod .p .r .s"
    );
    assert_eq!(vars.get(".SUFFIXES").value, vars.get("SUFFIXES").value);
    assert_eq!(vars.get("LINK.o").value, "$(CC) $(LDFLAGS) $(TARGET_ARCH)");
    assert!(vars.get("LINK.o").recursive);
    assert!(!vars.get("CC").recursive);
    assert_eq!(vars.get("COMPILE.cc").value, "$(CXX) $(CXXFLAGS) $(CPPFLAGS) $(TARGET_ARCH) -c");
    // An assignment goes before the default; an empty one gives it back.
    vars.set("CC", "gcc", false).unwrap();
    assert_eq!(vars.get("CC").value, "gcc");
    vars.set("CC", "", false).unwrap();
    assert_eq!(vars.get("CC").value, "cc");
    vars.set("SHELL", "/bin/zsh", false).unwrap();
    assert_eq!(vars.get("SHELL").value, "/bin/zsh");
    // An unknown name set to nothing stays blank.
    vars.set("UNKNOWN", "", true).unwrap();
    assert_eq!(vars.get("UNKNOWN").value, "");
    assert!(vars.get("UNKNOWN").recursive);
    assert!(!vars.get("NEVER_SET").recursive);
}

#[test]
fn vars_deferred_defaults_expand() {
    let mut vars = Vars::new([]);
    vars.set("CFLAGS", "-O2", false).unwrap();
    assert_eq!(
        omake::expand::expand("$(COMPILE.c) x.c", &vars).unwrap(),
        "cc -O2   -c x.c"
    );
    assert_eq!(omake::expand::expand("$(COMPILE.C)", &vars).unwrap(), "c++    -c");
}

#[test]
fn vars_from_env_skips_shell() {
    let env = vec![
        ("HOME".to_string(), "/home/me".to_string()),
        ("SHELL".to_string(), "/bin/fish".to_string()),
        ("CC".to_string(), "clang".to_string()),
        ("BAD NAME".to_string(), "x".to_string()),
        ("HOME".to_string(), "/root".to_string()),
    ];
    let vars = Vars::from_env(&env);
    assert_eq!(vars.get("HOME").value, "/root");
    assert!(!vars.get("HOME").recursive);
    assert_eq!(vars.get("SHELL").value, "/bin/sh");
    assert_eq!(vars.get("CC").value, "clang");
    assert_eq!(vars.get("BAD NAME").value, "");
    let vars = Vars::from_env(&Vec::new());
    assert_eq!(vars.get("HOME").value, "");
}
