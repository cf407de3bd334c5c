use std::cell::RefCell;

use omake::exec::Execution;
use omake::logger::{Journal, Logger};
use omake::makefile::Makefile;
use omake::opts::Opts;
use omake::step::{Action, Await, Event};
use omake::vars::Vars;

/// Keeps the entries that are written to it.
#[derive(Default)]
struct Recorder {
    entries: RefCell<Vec<String>>,
}

impl Logger for Recorder {
    fn write(&self, msg: String) {
        self.entries.borrow_mut().push(msg);
    }
}

fn journal() -> Journal<Recorder> {
    Journal::new(Recorder::default())
}

fn entries(log: &Journal<Recorder>) -> Vec<String> {
    log.sink().entries.borrow().clone()
}

/// The files of a build tree with the times they were modified, the time
/// now, and what happened: the lines printed and the lines run.
struct Host {
    files: Vec<(String, u64)>,
    now: u64,
    exit_codes: Vec<(String, Option<i32>)>,
    printed: Vec<String>,
    ran: Vec<Vec<String>>,
    asked: Vec<String>,
}

impl Host {
    fn new(files: &[(&str, u64)]) -> Host {
        Host {
            files: files.iter().map(|(n, t)| (n.to_string(), *t)).collect(),
            now: 1_000_000,
            exit_codes: Vec::new(),
            printed: Vec::new(),
            ran: Vec::new(),
            asked: Vec::new(),
        }
    }

    fn mtime(&self, name: &str) -> Option<u64> {
        self.files.iter().find(|(n, _)| n == name).map(|(_, t)| *t)
    }

    /// Runs the execution to its end. A line `touch NAME` that is run makes
    /// the file `NAME` as new as the clock, which then moves on.
    fn run(&mut self, run: &mut Execution, log: &mut Journal<Recorder>) -> Result<(), omake::error::MakeError> {
        let mut event = Event::Go;
        for _ in 0..10_000 {
            match run.step(log, event) {
                Action::Proceed => event = Event::Go,
                Action::Stat(name) => {
                    event = Event::Mtime(self.mtime(&name));
                    self.asked.push(name);
                }
                Action::Clock => event = Event::Clock(self.now),
                Action::Echo(line) => {
                    self.printed.push(line);
                    event = Event::Go;
                }
                Action::Spawn { shell, flags, line } => {
                    let mut command = vec![shell];
                    command.extend(flags);
                    command.push(line.clone());
                    self.ran.push(command);
                    let code = self
                        .exit_codes
                        .iter()
                        .find(|(l, _)| *l == line)
                        .map(|(_, c)| *c)
                        .unwrap_or(Some(0));
                    if let Some(name) = line.strip_prefix("touch ") {
                        self.files.retain(|(n, _)| n != name);
                        self.files.push((name.to_string(), self.now));
                        self.now += 1;
                    }
                    event = Event::Exited(code);
                }
                Action::Finished => return Ok(()),
                Action::Failed(e) => return Err(e),
            }
        }
        panic!("the execution did not end");
    }
}

fn parsed(text: &str, opts: Opts) -> Makefile<Recorder> {
    Makefile::new("Makefile", opts, Recorder::default(), Vars::new([]), text).unwrap()
}

fn strings(items: &[&str]) -> Vec<String> {
    items.iter().map(|s| s.to_string()).collect()
}

fn sh(line: &str) -> Vec<String> {
    strings(&["/bin/sh", "-c", line])
}

#[test]
fn exec_simple_target_without_prerequisites() {
    let makefile = parsed("all:\n\techo \"Hello\"\n", Opts::default());
    let mut host = Host::new(&[]);
    let mut log = journal();
    let mut run = makefile.execute(vec![]).unwrap();
    host.run(&mut run, &mut log).unwrap();
    assert_eq!(host.printed, strings(&["echo \"Hello\""]));
    assert_eq!(host.ran, vec![sh("echo \"Hello\"")]);
    assert!(entries(&log).is_empty());
    assert_eq!(run.awaiting(), Await::Over);
}

const PREREQ: &str = "test: test_prereq\n\techo \"This is a test\" > test\ntest_prereq:\n\techo test2 > test_prereq\n";

#[test]
fn exec_single_prerequisite_asked_for() {
    let makefile = parsed(PREREQ, Opts::default());
    let mut host = Host::new(&[]);
    let mut log = journal();
    let mut run = makefile.execute(strings(&["test_prereq"])).unwrap();
    host.run(&mut run, &mut log).unwrap();
    assert_eq!(host.printed, strings(&["echo test2 > test_prereq"]));
    assert_eq!(host.ran, vec![sh("echo test2 > test_prereq")]);
}

#[test]
fn exec_missing_prerequisite_is_made_first() {
    let makefile = parsed(PREREQ, Opts::default());
    let mut host = Host::new(&[]);
    let mut log = journal();
    let mut run = makefile.execute(vec![]).unwrap();
    host.run(&mut run, &mut log).unwrap();
    assert_eq!(
        host.printed,
        strings(&["echo test2 > test_prereq", "echo \"This is a test\" > test"])
    );
    assert_eq!(host.asked, strings(&["test", "test_prereq", "test_prereq"]));
}

#[test]
fn exec_always_make_forces_rebuild() {
    let opts = Opts { always_make: true, ..Opts::default() };
    let makefile = parsed("test: a\n\techo test > test\na:\n\techo test > a\n", opts);
    let mut host = Host::new(&[("test", 50), ("a", 10)]);
    let mut log = journal();
    let mut run = makefile.execute(strings(&["test"])).unwrap();
    host.run(&mut run, &mut log).unwrap();
    assert_eq!(host.printed, strings(&["echo test > a", "echo test > test"]));
    assert_eq!(host.ran, vec![sh("echo test > a"), sh("echo test > test")]);
    assert!(entries(&log).is_empty());
}

#[test]
fn exec_up_to_date_target_runs_nothing() {
    let makefile = parsed("test: a\n\techo test > test\na:\n\techo test > a\n", Opts::default());
    let mut host = Host::new(&[("test", 50), ("a", 10)]);
    let mut log = journal();
    let mut run = makefile.execute(strings(&["test"])).unwrap();
    host.run(&mut run, &mut log).unwrap();
    assert!(host.printed.is_empty());
    assert!(host.ran.is_empty());
    assert_eq!(entries(&log), strings(&["make: INFO  | Target 'test' is up to date."]));
}

#[test]
fn exec_newer_prerequisite_makes_the_recipe_run() {
    let makefile = parsed("b: a\n\techo b > b\n", Opts::default());
    let mut host = Host::new(&[("b", 10), ("a", 11)]);
    let mut log = journal();
    let mut run = makefile.execute(strings(&["b"])).unwrap();
    host.run(&mut run, &mut log).unwrap();
    assert_eq!(host.printed, strings(&["echo b > b"]));
    // Equal times do not.
    let mut host = Host::new(&[("b", 10), ("a", 10)]);
    let mut run = makefile.execute(strings(&["b"])).unwrap();
    host.run(&mut run, &mut log).unwrap();
    assert!(host.printed.is_empty());
}

#[test]
fn exec_old_file_is_up_to_date() {
    let opts = Opts { old_file: strings(&["b"]), ..Opts::default() };
    let makefile = parsed("b: a\n\techo b > b\n", opts);
    let mut host = Host::new(&[("a", 10)]);
    let mut log = journal();
    let mut run = makefile.execute(strings(&["b"])).unwrap();
    host.run(&mut run, &mut log).unwrap();
    assert!(host.printed.is_empty());
    assert!(host.ran.is_empty());
    assert!(host.asked.is_empty());
    assert_eq!(entries(&log), strings(&["make: INFO  | Target 'b' is up to date (old)."]));
    assert!(entries(&log)[0].contains("'b' is up to date (old)."));
}

#[test]
fn exec_without_old_file_the_target_is_made() {
    let makefile = parsed("b: a\n\techo b > b\n", Opts::default());
    let mut host = Host::new(&[("a", 10)]);
    let mut log = journal();
    let mut run = makefile.execute(strings(&["b"])).unwrap();
    host.run(&mut run, &mut log).unwrap();
    assert_eq!(host.printed, strings(&["echo b > b"]));
}

#[test]
fn exec_old_prerequisite_never_makes_the_recipe_run() {
    let opts = Opts { old_file: strings(&["a"]), ..Opts::default() };
    let makefile = parsed("b: a\n\techo b > b\n", opts);
    let mut host = Host::new(&[("b", 5), ("a", 10)]);
    let mut log = journal();
    let mut run = makefile.execute(strings(&["b"])).unwrap();
    host.run(&mut run, &mut log).unwrap();
    assert!(host.printed.is_empty());
    assert_eq!(host.asked, strings(&["b"]));
}

#[test]
fn exec_new_file_is_a_year_ahead_of_the_clock() {
    let opts = Opts { new_file: strings(&["a"]), ..Opts::default() };
    let makefile = parsed("b: a\n\techo b > b\n", opts);
    let mut host = Host::new(&[("b", 2_000_000), ("a", 10)]);
    let mut log = journal();
    let mut run = makefile.execute(strings(&["b"])).unwrap();
    host.run(&mut run, &mut log).unwrap();
    assert_eq!(host.printed, strings(&["echo b > b"]));
    assert_eq!(host.asked, strings(&["b"]));
    assert_eq!(omake::exec::very_new_time(1_000_000), 1_000_000 + 31_536_000_000_000_000);
    assert_eq!(omake::exec::very_new_time(u64::MAX - 5), u64::MAX);
}

#[test]
fn exec_just_print_prints_without_running() {
    let opts = Opts { just_print: true, ..Opts::default() };
    let makefile = parsed("all:\n\techo \"test\"\n", opts);
    let mut host = Host::new(&[]);
    let mut log = journal();
    let mut run = makefile.execute(vec![]).unwrap();
    host.run(&mut run, &mut log).unwrap();
    assert_eq!(host.printed, strings(&["echo \"test\""]));
    assert!(host.ran.is_empty());

    let makefile = parsed("all:\n\techo \"test\"\n", Opts::default());
    let mut host = Host::new(&[]);
    let mut run = makefile.execute(vec![]).unwrap();
    host.run(&mut run, &mut log).unwrap();
    assert_eq!(host.printed, strings(&["echo \"test\""]));
    assert_eq!(host.ran, vec![sh("echo \"test\"")]);
}

#[test]
fn exec_just_print_with_always_make_prints_every_line_once() {
    let opts = Opts { just_print: true, always_make: true, ..Opts::default() };
    let makefile = parsed("all: a b\n\tone\n\t@two\na: c\n\tthree\nb: c\n\tfour\nc:\n\tfive\n", opts);
    let mut host = Host::new(&[("all", 9), ("a", 9), ("b", 9), ("c", 9)]);
    let mut log = journal();
    let mut run = makefile.execute(vec![]).unwrap();
    host.run(&mut run, &mut log).unwrap();
    assert_eq!(host.printed, strings(&["five", "three", "five", "four", "one", "@two"]));
    assert!(host.ran.is_empty());
    assert!(host.asked.is_empty() || host.asked.iter().all(|n| ["all", "a", "b", "c"].contains(&n.as_str())));
}

#[test]
fn exec_modifiers() {
    assert_eq!(omake::exec::modifiers("echo hi"), (false, false, false));
    assert_eq!(omake::exec::modifiers("@echo hi"), (true, false, false));
    assert_eq!(omake::exec::modifiers("-@echo hi"), (true, true, false));
    assert_eq!(omake::exec::modifiers("@-+echo hi"), (true, true, true));
    assert_eq!(omake::exec::modifiers("  +x"), (false, false, true));
    assert_eq!(omake::exec::modifiers("x@-+"), (false, false, false));
    assert_eq!(omake::exec::modifiers("@ -x"), (true, false, false));
    assert_eq!(omake::exec::modifiers(""), (false, false, false));
}

#[test]
fn exec_silent_line_is_not_printed_but_run() {
    let makefile = parsed("all:\n\t@echo quiet\n\techo loud\n", Opts::default());
    let mut host = Host::new(&[]);
    let mut log = journal();
    let mut run = makefile.execute(vec![]).unwrap();
    host.run(&mut run, &mut log).unwrap();
    assert_eq!(host.printed, strings(&["echo loud"]));
    assert_eq!(host.ran, vec![sh("@echo quiet"), sh("echo loud")]);
}

#[test]
fn exec_forced_line_runs_even_when_just_printing() {
    let opts = Opts { just_print: true, ..Opts::default() };
    let makefile = parsed("all:\n\t+echo forced\n\techo plain\n", opts);
    let mut host = Host::new(&[]);
    let mut log = journal();
    let mut run = makefile.execute(vec![]).unwrap();
    host.run(&mut run, &mut log).unwrap();
    assert_eq!(host.printed, strings(&["+echo forced", "echo plain"]));
    assert_eq!(host.ran, vec![sh("+echo forced")]);
}

#[test]
fn exec_failed_line_stops_the_execution() {
    let makefile = parsed("all:\n\tfalse\n\techo after\n", Opts::default());
    let mut host = Host::new(&[]);
    host.exit_codes.push(("false".to_string(), Some(3)));
    let mut log = journal();
    let mut run = makefile.execute(vec![]).unwrap();
    let e = host.run(&mut run, &mut log).unwrap_err();
    assert_eq!(e.msg, "Failed with code 3.");
    assert_eq!(e.context.line_index, Some(1));
    assert_eq!(host.printed, strings(&["false"]));
    // Once it has failed, it stays failed.
    assert!(matches!(run.step(&mut log, Event::Go), Action::Failed(_)));
}

#[test]
fn exec_negative_exit_code_and_signal() {
    let makefile = parsed("all:\n\tneg\n", Opts::default());
    let mut host = Host::new(&[]);
    host.exit_codes.push(("neg".to_string(), Some(-17)));
    let mut log = journal();
    let mut run = makefile.execute(vec![]).unwrap();
    assert_eq!(host.run(&mut run, &mut log).unwrap_err().msg, "Failed with code -17.");
    let mut host = Host::new(&[]);
    host.exit_codes.push(("neg".to_string(), None));
    let mut run = makefile.execute(vec![]).unwrap();
    assert_eq!(host.run(&mut run, &mut log).unwrap_err().msg, "Killed.");
    let mut host = Host::new(&[]);
    host.exit_codes.push(("neg".to_string(), Some(i32::MIN)));
    let mut run = makefile.execute(vec![]).unwrap();
    assert_eq!(host.run(&mut run, &mut log).unwrap_err().msg, "Failed with code -2147483648.");
}

#[test]
fn exec_errors_can_be_ignored() {
    let makefile = parsed("all:\n\t-false\n\techo after\n", Opts::default());
    let mut host = Host::new(&[]);
    host.exit_codes.push(("-false".to_string(), Some(1)));
    let mut log = journal();
    let mut run = makefile.execute(vec![]).unwrap();
    host.run(&mut run, &mut log).unwrap();
    assert_eq!(host.printed, strings(&["-false", "echo after"]));

    let opts = Opts { ignore_errors: true, ..Opts::default() };
    let makefile = parsed("all:\n\tfalse\n\techo after\n", opts);
    let mut host = Host::new(&[]);
    host.exit_codes.push(("false".to_string(), None));
    let mut run = makefile.execute(vec![]).unwrap();
    host.run(&mut run, &mut log).unwrap();
    assert_eq!(host.printed, strings(&["false", "echo after"]));
}

#[test]
fn exec_spawn_failure_is_an_error_at_the_rule() {
    let makefile = parsed("\nall:\n\t-echo hi\n", Opts { ignore_errors: true, ..Opts::default() });
    let mut log = journal();
    let mut run = makefile.execute(vec![]).unwrap();
    let mut event = Event::Go;
    loop {
        match run.step(&mut log, event) {
            Action::Spawn { .. } => break,
            Action::Stat(_) => event = Event::Mtime(None),
            Action::Failed(_) | Action::Finished => panic!("ended early"),
            _ => event = Event::Go,
        }
    }
    match run.step(&mut log, Event::SpawnFailed("no such shell".to_string())) {
        Action::Failed(e) => {
            assert_eq!(e.msg, "no such shell");
            assert_eq!(e.context.line_index, Some(2));
        }
        _ => panic!("a failure was expected"),
    }
}

#[test]
fn exec_no_rule_for_a_target() {
    let makefile = parsed("all: missing\n\techo hi\n", Opts::default());
    let mut host = Host::new(&[]);
    let mut log = journal();
    let mut run = makefile.execute(strings(&["nothing"])).unwrap();
    let e = host.run(&mut run, &mut log).unwrap_err();
    assert_eq!(e.msg, "No rule to make target 'nothing'.");
    assert_eq!(e.context.path, None);
    // A missing prerequisite without a rule is an error once it is visited.
    let mut host = Host::new(&[]);
    let mut run = makefile.execute(vec![]).unwrap();
    let e = host.run(&mut run, &mut log).unwrap_err();
    assert_eq!(e.msg, "No rule to make target 'missing'.");
    // A prerequisite that exists needs no rule.
    let mut host = Host::new(&[("missing", 1)]);
    let mut run = makefile.execute(vec![]).unwrap();
    host.run(&mut run, &mut log).unwrap();
    assert_eq!(host.printed, strings(&["echo hi"]));
}

#[test]
fn exec_no_target_and_no_default() {
    let makefile = parsed("X = 1\n", Opts::default());
    match makefile.execute(vec![]) {
        Err(e) => assert_eq!(e.msg, "No target specified and no default target found."),
        Ok(_) => panic!("an error was expected"),
    };
}

#[test]
fn exec_targets_in_the_order_asked_for() {
    let makefile = parsed("a:\n\tmake a\nb:\n\tmake b\n", Opts::default());
    let mut host = Host::new(&[]);
    let mut log = journal();
    let mut run = makefile.execute(strings(&["b", "a", "b"])).unwrap();
    host.run(&mut run, &mut log).unwrap();
    assert_eq!(host.printed, strings(&["make b", "make a", "make b"]));
}

#[test]
fn exec_double_colon_rules_run_in_order() {
    let makefile = parsed("x:: a\n\tfirst\nx:: b\n\tsecond\n", Opts::default());
    let mut host = Host::new(&[("x", 10), ("a", 5), ("b", 20)]);
    let mut log = journal();
    let mut run = makefile.execute(vec![]).unwrap();
    host.run(&mut run, &mut log).unwrap();
    assert_eq!(host.printed, strings(&["second"]));
    let mut host = Host::new(&[("a", 5), ("b", 20)]);
    let mut run = makefile.execute(vec![]).unwrap();
    host.run(&mut run, &mut log).unwrap();
    assert_eq!(host.printed, strings(&["first", "second"]));
}

#[test]
fn exec_shell_and_flags_come_from_the_variables() {
    let makefile = parsed("SHELL = /bin/bash\n.SHELLFLAGS = -e  -c\nall:\n\techo hi\n", Opts::default());
    let mut host = Host::new(&[]);
    let mut log = journal();
    let mut run = makefile.execute(vec![]).unwrap();
    host.run(&mut run, &mut log).unwrap();
    assert_eq!(host.ran, vec![strings(&["/bin/bash", "-e", "-c", "echo hi"])]);
}

#[test]
fn exec_second_run_on_a_completed_tree_runs_nothing() {
    let makefile = parsed("all: a b\n\ttouch all\na: c\n\ttouch a\nb:\n\ttouch b\nc:\n\ttouch c\n", Opts::default());
    let mut host = Host::new(&[]);
    let mut log = journal();
    let mut run = makefile.execute(vec![]).unwrap();
    host.run(&mut run, &mut log).unwrap();
    assert_eq!(host.printed, strings(&["touch c", "touch a", "touch b", "touch all"]));
    host.printed.clear();
    host.ran.clear();
    let mut run = makefile.execute(vec![]).unwrap();
    host.run(&mut run, &mut log).unwrap();
    assert!(host.printed.is_empty());
    assert!(host.ran.is_empty());
}

#[test]
fn exec_same_answers_give_the_same_requests() {
    let text = "all: a b\n\tone\na:\n\ttwo\nb: a\n\t@three\n";
    let mut traces = Vec::new();
    for _ in 0..2 {
        let makefile = parsed(text, Opts::default());
        let mut host = Host::new(&[("b", 4)]);
        let mut log = journal();
        let mut run = makefile.execute(vec![]).unwrap();
        host.run(&mut run, &mut log).unwrap();
        traces.push((host.printed, host.ran, host.asked, entries(&log)));
    }
    assert_eq!(traces[0], traces[1]);
}

#[test]
fn exec_unexpected_answer_fails() {
    let makefile = parsed("all:\n\techo hi\n", Opts::default());
    let mut log = journal();
    let mut run = makefile.execute(vec![]).unwrap();
    match run.step(&mut log, Event::Mtime(None)) {
        Action::Failed(e) => assert_eq!(e.msg, "Unexpected event."),
        _ => panic!("a failure was expected"),
    }
    assert_eq!(run.awaiting(), Await::Over);
}
