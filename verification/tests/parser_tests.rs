use std::cell::RefCell;

use omake::logger::{Journal, Logger};
use omake::makefile::Makefile;
use omake::opts::Opts;
use omake::vars::Vars;

/// Keeps the entries that are written to it.
#[derive(Default)]
struct Recorder {
    entries: RefCell<Vec<String>>,
}

impl Logger for Recorder {
    fn write(&self, msg: String) {
        self.entries.borrow_mut().push(msg);
    }
}

fn journal() -> Journal<Recorder> {
    Journal::new(Recorder::default())
}

fn entries(log: &Journal<Recorder>) -> Vec<String> {
    log.sink().entries.borrow().clone()
}

fn parsed(text: &str) -> Makefile<Recorder> {
    Makefile::new("Makefile", Opts::default(), Recorder::default(), Vars::new([]), text).unwrap()
}

fn parse_error(text: &str) -> omake::error::MakeError {
    match Makefile::new("Makefile", Opts::default(), Recorder::default(), Vars::new([]), text) {
        Ok(_) => panic!("the makefile was accepted"),
        Err(e) => e,
    }
}

#[test]
fn parser_test_simple() {
    let makefile = parsed("all: ;echo \"Hello, world!\"");

    // Exactly 1 rule, the one of the target `all`.
    let rule_map = makefile.rule_map();
    assert_eq!(rule_map.rules().len(), 1);
    let rules = rule_map.rules_for("all").unwrap();
    assert_eq!(rules.len(), 1);

    // That rule has 1 target (all), no prerequisites, and 1 recipe line.
    let rule = rules.first().unwrap();
    assert_eq!(rule.targets.len(), 1);
    assert_eq!(rule.targets.first().unwrap(), "all");
    assert_eq!(rule.prerequisites.len(), 0);
    assert_eq!(rule.recipe.len(), 1);
    assert_eq!(rule.recipe.first().unwrap(), "echo \"Hello, world!\"");
}

#[test]
fn parser_reads_rules_with_recipes() {
    let makefile = parsed("test: test_prereq\n\techo \"This is a test\" > test\ntest_prereq:\n\techo test2 > test_prereq\n");
    let rule_map = makefile.rule_map();
    assert_eq!(rule_map.rules().len(), 2);
    let test = rule_map.rules_for("test").unwrap();
    assert_eq!(test[0].prerequisites, vec!["test_prereq".to_string()]);
    assert_eq!(test[0].recipe, vec!["echo \"This is a test\" > test".to_string()]);
    assert!(!test[0].double_colon);
    assert_eq!(test[0].context.line_index, Some(1));
    assert_eq!(test[0].context.path.as_deref(), Some("Makefile"));
    assert_eq!(test[0].context.content.as_deref(), Some("test: test_prereq"));
    let prereq = rule_map.rules_for("test_prereq").unwrap();
    assert_eq!(prereq[0].context.line_index, Some(3));
    assert_eq!(prereq[0].recipe, vec!["echo test2 > test_prereq".to_string()]);
    assert!(rule_map.rules_for("other").is_none());
    assert_eq!(makefile.default_target().as_deref(), Some("test"));
}

#[test]
fn parser_default_target_skips_dot_targets() {
    let makefile = parsed(".PHONY .x real other: dep\n\t:\nsecond:\n");
    assert_eq!(makefile.default_target().as_deref(), Some("real"));
    let makefile = parsed(".PHONY: all\nall:\n");
    assert_eq!(makefile.default_target().as_deref(), Some("all"));
    let makefile = parsed("# nothing\n\nX = 1\n");
    assert_eq!(makefile.default_target().as_deref(), None);
}

#[test]
fn parser_assignments_are_expanded_at_once() {
    let makefile = parsed("A = one\nB =   $(A) two  \nA = three\n  C\t= $(B)$(A)\n");
    assert_eq!(makefile.vars.get("A").value, "three");
    assert_eq!(makefile.vars.get("B").value, "one two  ");
    assert!(!makefile.vars.get("B").recursive);
    assert_eq!(makefile.vars.get("C").value, "one two  three");
}

#[test]
fn parser_expands_targets_prerequisites_and_recipes() {
    let makefile = parsed("OBJ = a.o b.o\nOUT = prog\n$(OUT) extra: $(OBJ) ${OUT}.h\n\t$(CC) -o $(OUT) $(OBJ)\n");
    let rules = makefile.rule_map().rules_for("prog").unwrap();
    assert_eq!(rules[0].targets, vec!["prog".to_string(), "extra".to_string()]);
    assert_eq!(
        rules[0].prerequisites,
        vec!["a.o".to_string(), "b.o".to_string(), "prog.h".to_string()]
    );
    assert_eq!(rules[0].recipe, vec!["cc -o prog a.o b.o".to_string()]);
    assert_eq!(makefile.rule_map().rules_for("extra").unwrap().len(), 1);
}

#[test]
fn parser_comments_and_blank_lines() {
    let makefile = parsed("# a comment\n   # another\n\nall: dep # trailing comment\n\techo hi # kept in the recipe\n");
    let rules = makefile.rule_map().rules_for("all").unwrap();
    assert_eq!(rules[0].prerequisites, vec!["dep".to_string()]);
    assert_eq!(rules[0].recipe, vec!["echo hi # kept in the recipe".to_string()]);
}

#[test]
fn parser_blank_recipe_lines_are_dropped() {
    let makefile = parsed("all:\n\t\n\t   \n\techo one\n\t\techo two  \n");
    let rules = makefile.rule_map().rules_for("all").unwrap();
    assert_eq!(rules[0].recipe, vec!["echo one".to_string(), "echo two".to_string()]);
}

#[test]
fn parser_recipe_prefix_can_be_changed() {
    let makefile = parsed(".RECIPEPREFIX = >\nall:\n>echo hi\n");
    let rules = makefile.rule_map().rules_for("all").unwrap();
    assert_eq!(rules[0].recipe, vec!["echo hi".to_string()]);
    // Only the first character of the value counts.
    let makefile = parsed(".RECIPEPREFIX = >>\nall:\n>echo hi\n");
    let rules = makefile.rule_map().rules_for("all").unwrap();
    assert_eq!(rules[0].recipe, vec!["echo hi".to_string()]);
}

#[test]
fn parser_carriage_returns_end_lines_too() {
    let makefile = parsed("all: dep\r\n\techo hi\r\n");
    let rules = makefile.rule_map().rules_for("all").unwrap();
    assert_eq!(rules[0].prerequisites, vec!["dep".to_string()]);
    assert_eq!(rules[0].recipe, vec!["echo hi".to_string()]);
}

#[test]
fn parser_double_colon_rules_are_all_kept() {
    let makefile = parsed("x:: a\n\tfirst\nx:: b\n\tsecond\n");
    let rules = makefile.rule_map().rules_for("x").unwrap();
    assert_eq!(rules.len(), 2);
    assert!(rules[0].double_colon && rules[1].double_colon);
    assert_eq!(rules[0].recipe, vec!["first".to_string()]);
    assert_eq!(rules[1].recipe, vec!["second".to_string()]);
    assert!(entries(&makefile.logger).is_empty());
}

#[test]
fn parser_duplicate_single_colon_rule_is_ignored_with_a_warning() {
    let makefile = parsed("x: a\n\tfirst\nx y: b\n\tsecond\n");
    let rule_map = makefile.rule_map();
    assert_eq!(rule_map.rules().len(), 2);
    let x = rule_map.rules_for("x").unwrap();
    assert_eq!(x.len(), 1);
    assert_eq!(x[0].recipe, vec!["first".to_string()]);
    let y = rule_map.rules_for("y").unwrap();
    assert_eq!(y.len(), 1);
    assert_eq!(y[0].recipe, vec!["second".to_string()]);
    assert_eq!(
        entries(&makefile.logger),
        vec!["make: WARN  [Makefile:3] | Ignoring duplicate definition.\n  |\n3 | x y: b\n  | \n".to_string()]
    );
}

#[test]
fn parser_colon_mode_conflict() {
    let e = parse_error("x: ; :\nx:: ; :\n");
    assert_eq!(e.msg, "Cannot define rules using ':' and '::' on the same target.");
    assert_eq!(e.context.line_index, Some(2));
    let e = parse_error("x:: ; :\nx: ; :\n");
    assert_eq!(e.msg, "Cannot define rules using ':' and '::' on the same target.");
}

#[test]
fn parser_invalid_line() {
    let e = parse_error("all:\n\techo hi\nthis is not a line\n");
    assert_eq!(e.msg, "Invalid line type.");
    assert_eq!(e.context.line_index, Some(3));
    assert_eq!(e.context.content.as_deref(), Some("this is not a line"));
    assert_eq!(e.context.path.as_deref(), Some("Makefile"));
}

#[test]
fn parser_rule_without_targets() {
    let e = parse_error(": dep\n");
    assert_eq!(e.msg, "Invalid line type.");
    let e = parse_error("$(EMPTY): dep\n");
    assert_eq!(e.msg, "Invalid line type.");
}

#[test]
fn parser_recipe_without_rule() {
    let e = parse_error("\techo hi\n");
    assert_eq!(e.msg, "recipe without rule");
    assert_eq!(e.context.line_index, Some(1));
    let e = parse_error("all:\n\techo hi\nX = 1\n\techo late\n");
    assert_eq!(e.msg, "recipe without rule");
    assert_eq!(e.context.line_index, Some(4));
}

#[test]
fn parser_unclosed_variable() {
    let e = parse_error("X = $(Y\n");
    assert_eq!(e.msg, "Unclosed variable: (");
    let e = parse_error("all: ${dep\n");
    assert_eq!(e.msg, "Unclosed variable: { ");
    let e = parse_error("all:\n\techo $(oops\n");
    assert_eq!(e.msg, "Unclosed variable: (echo ");
}

#[test]
fn parser_invalid_assignment_name() {
    let e = parse_error("A B = 1\n");
    assert_eq!(e.msg, "Variable contains whitespace.");
    // The first equals sign ends the name.
    let makefile = parsed("A=B=1\n");
    assert_eq!(makefile.vars.get("A").value, "B=1");
}

#[test]
fn test_simple() {
    let makefile = parsed("all: ;echo \"Hello, world!\"");

    // Exactly 1 rule.
    assert_eq!(makefile.rule_map().rules().len(), 1);

    // That rule has 1 target (all), no prerequisites, and 1 recipe line.
    let rule = makefile.rule_map().rules().last().unwrap();
    assert_eq!(rule.targets.len(), 1);
    assert_eq!(rule.targets.first().unwrap(), "all");
    assert_eq!(rule.prerequisites.len(), 0);
    assert_eq!(rule.recipe.len(), 1);
    assert_eq!(rule.recipe.first().unwrap(), "echo \"Hello, world!\"");
}
