//! The makefile: its parser, which reads a makefile line by line into
//! variables and rules, and the start of an execution.

use crate::context::{Context, ContextView};
use crate::error::{tells, MakeError, MakeErrorView};
use crate::exec::Execution;
use crate::expand::{expand, expansion};
use crate::logger::{log_entry, Journal, Logger, WARN};
use crate::opts::{Opts, OptsView};
use crate::step::{Await, ExecutionView};
use crate::rule_map::{
    conflict_message, consistent, duplicate_message, enter, repeated, Rule, RuleMap, RuleMapView,
    RuleView,
};
use crate::text::{
    chars_of, find_char_from, find_from, skip_spaces_from, slice_of, split_words,
    string_of, string_of_range, texts, trim, trim_bounds, trim_start, words,
};
use crate::vars::{first_bad, lookup, name_error, valid_name, VarView, Vars};
use vstd::prelude::*;
use vstd::string::StringExecFns;

verus! {

/// A makefile while and after it is parsed.
pub struct Makefile<L: Logger> {
    pub opts: Opts,
    pub logger: Journal<L>,
    pub vars: Vars,
    rule_map: RuleMap,
    default_target: Option<String>,
    current_rule: Option<Rule>,
    context: Context,
}

/// What a makefile is to the contracts.
pub struct MakefileView {
    pub opts: OptsView,
    /// The log entries written so far.
    pub log: Seq<Seq<char>>,
    pub vars: Map<Seq<char>, VarView>,
    pub rule_map: RuleMapView,
    /// The target that is made where none is asked for.
    pub default_target: Option<Seq<char>>,
    /// The rule whose recipe is being read.
    pub current_rule: Option<RuleView>,
    /// The line that is being read.
    pub context: ContextView,
}

/// A state of the parser, and the error that stopped it there, if any.
pub struct Outcome {
    pub state: MakefileView,
    pub error: Option<MakeErrorView>,
}

/// The outcome without an error.
pub open spec fn fine(state: MakefileView) -> Outcome {
    Outcome { state, error: None }
}

/// The outcome that stops in `state` with the message `msg` at the line that
/// is being read.
pub open spec fn stopped(state: MakefileView, msg: Seq<char>) -> Outcome {
    Outcome { state, error: Some(MakeErrorView { msg, context: state.context }) }
}

/// What an optional rule is to the contracts.
pub open spec fn rule_of(rule: Option<Rule>) -> Option<RuleView> {
    match rule {
        Some(r) => Some(r@),
        None => None,
    }
}

impl<L: Logger> View for Makefile<L> {
    type V = MakefileView;

    closed spec fn view(&self) -> MakefileView {
        MakefileView {
            opts: self.opts@,
            log: self.logger.lines(),
            vars: self.vars@,
            rule_map: self.rule_map@,
            default_target: crate::context::text_of(self.default_target),
            current_rule: rule_of(self.current_rule),
            context: self.context@,
        }
    }
}

/// Whether `line` is a recipe line: its first character is the first
/// character of the value of `.RECIPEPREFIX`.
pub open spec fn is_recipe_line(vars: Map<Seq<char>, VarView>, line: Seq<char>) -> bool {
    let prefix = lookup(vars, ".RECIPEPREFIX"@).value;
    prefix.len() > 0 && line.len() > 0 && line[0] == prefix[0]
}

/// The outcome of a recipe line whose text after the prefix is `text`: an
/// error outside a rule; else the text, trimmed and expanded, becomes the
/// next line of the recipe of the rule being read, unless it is blank.
pub open spec fn recipe_outcome(st: MakefileView, text: Seq<char>) -> Outcome {
    match st.current_rule {
        None => stopped(st, "recipe without rule"@),
        Some(rule) => {
            let cmd = trim(text);
            if cmd.len() == 0 {
                fine(st)
            } else {
                match expansion(cmd, st.vars) {
                    Err(msg) => stopped(st, msg),
                    Ok(line) => fine(
                        MakefileView {
                            current_rule: Some(RuleView { recipe: rule.recipe.push(line), ..rule }),
                            ..st
                        },
                    ),
                }
            }
        },
    }
}

/// Index of the first of `targets` at or after `i` whose name does not start
/// with a dot, or the number of targets where there is none.
pub open spec fn first_plain(targets: Seq<Seq<char>>, i: int) -> int
    decreases targets.len() - i,
{
    if 0 <= i < targets.len() && targets[i].len() > 0 && targets[i][0] == '.' {
        first_plain(targets, i + 1)
    } else {
        i
    }
}

/// The default target once a rule with `targets` was read: the one there
/// was, else the first of `targets` whose name does not start with a dot.
pub open spec fn default_after(current: Option<Seq<char>>, targets: Seq<Seq<char>>) -> Option<
    Seq<char>,
> {
    if current is Some {
        current
    } else if 0 <= first_plain(targets, 0) < targets.len() {
        Some(targets[first_plain(targets, 0)])
    } else {
        None
    }
}

/// The outcome of ending the rule that is being read, if there is one: the
/// default target is settled, the rule is stored in the rule map and its
/// targets are entered there, with a warning for each target passed over. A
/// target that has rules of the other kind is an error at the rule's place.
pub open spec fn end_rule(st: MakefileView) -> Outcome {
    match st.current_rule {
        None => fine(st),
        Some(rule) => {
            let rules = st.rule_map.rules.push(rule);
            let e = enter(
                rules,
                st.rule_map.by_target,
                st.rule_map.rules.len() as usize,
                rule.targets.len(),
            );
            let after = MakefileView {
                default_target: default_after(st.default_target, rule.targets),
                current_rule: None,
                rule_map: RuleMapView { rules, by_target: e.by_target },
                log: st.log + repeated(
                    log_entry(WARN@, duplicate_message(), Some(rule.context)),
                    e.ignored,
                ),
                ..st
            };
            if e.conflict {
                Outcome {
                    state: after,
                    error: Some(MakeErrorView { msg: conflict_message(), context: rule.context }),
                }
            } else {
                fine(after)
            }
        },
    }
}

/// The outcome of a rule header with the targets `left` and, behind the first
/// colon, `right`: a second colon right there makes the rule double-colon;
/// what follows a semicolon is a first recipe line. Targets and prerequisites
/// are expanded, then split into words. A rule without targets is an error.
pub open spec fn header_outcome(st: MakefileView, left: Seq<char>, right: Seq<char>) -> Outcome {
    let double_colon = right.len() > 0 && right[0] == ':';
    let rest = if double_colon {
        right.subrange(1, right.len() as int)
    } else {
        right
    };
    let semi = find_from(rest, ';', 0);
    let deps = rest.subrange(0, semi);
    match expansion(left, st.vars) {
        Err(msg) => stopped(st, msg),
        Ok(targets) => match expansion(deps, st.vars) {
            Err(msg) => stopped(st, msg),
            Ok(prerequisites) => if words(targets).len() == 0 {
                stopped(st, "Invalid line type."@)
            } else {
                let rule = RuleView {
                    targets: words(targets),
                    prerequisites: words(prerequisites),
                    recipe: Seq::empty(),
                    context: st.context,
                    double_colon,
                };
                let with_rule = MakefileView { current_rule: Some(rule), ..st };
                if semi < rest.len() {
                    recipe_outcome(with_rule, rest.subrange(semi + 1, rest.len() as int))
                } else {
                    fine(with_rule)
                }
            },
        },
    }
}

/// The outcome of an assignment of `right` to the name `left`: the value is
/// `right` without its leading whitespace, expanded at once, and it is stored
/// as an immediate variable. A name that cannot be assigned to is an error.
pub open spec fn assignment_outcome(st: MakefileView, left: Seq<char>, right: Seq<char>) -> Outcome {
    match expansion(trim_start(right), st.vars) {
        Err(msg) => stopped(st, msg),
        Ok(value) => {
            let name = trim(left);
            if valid_name(name) {
                fine(
                    MakefileView {
                        vars: st.vars.insert(name, VarView { value, recursive: false }),
                        ..st
                    },
                )
            } else {
                stopped(st, name_error(name[first_bad(name, 0)]))
            }
        },
    }
}

/// The outcome of a line that is no recipe line, after the rule that was
/// being read has ended: what follows the first `#` is a comment; a blank
/// line is passed over; a line with a colon is a rule header; else a line
/// with an equals sign is an assignment; any other line is an error.
pub open spec fn plain_outcome(st: MakefileView, line: Seq<char>) -> Outcome {
    let body = line.subrange(0, find_from(line, '#', 0));
    let colon = find_from(body, ':', 0);
    let equals = find_from(body, '=', 0);
    if trim(body).len() == 0 {
        fine(st)
    } else if colon < body.len() {
        header_outcome(st, body.subrange(0, colon), body.subrange(colon + 1, body.len() as int))
    } else if equals < body.len() {
        assignment_outcome(
            st,
            body.subrange(0, equals),
            body.subrange(equals + 1, body.len() as int),
        )
    } else {
        stopped(st, "Invalid line type."@)
    }
}

/// The outcome of one line.
#[verifier::opaque]
pub open spec fn line_outcome(st: MakefileView, line: Seq<char>) -> Outcome {
    if is_recipe_line(st.vars, line) {
        recipe_outcome(st, line.subrange(1, line.len() as int))
    } else {
        let ended = end_rule(st);
        if ended.error is Some {
            ended
        } else {
            plain_outcome(ended.state, line)
        }
    }
}

/// The state in which line number `number`, counted from 1, with the text
/// `line` is read.
pub open spec fn at_line(st: MakefileView, number: usize, line: Seq<char>) -> MakefileView {
    MakefileView {
        context: ContextView { line_index: Some(number), content: Some(line), ..st.context },
        ..st
    }
}

/// The outcome of reading the first `n` of `lines`; the first error stops it.
pub open spec fn lines_outcome(st: MakefileView, lines: Seq<Seq<char>>, n: nat) -> Outcome
    decreases n,
{
    if n == 0 || n > lines.len() {
        fine(st)
    } else {
        let prev = lines_outcome(st, lines, (n - 1) as nat);
        if prev.error is Some {
            prev
        } else {
            line_outcome(at_line(prev.state, n as usize, lines[n - 1]), lines[n - 1])
        }
    }
}

/// The outcome of parsing the makefile `text`: its lines are read in order,
/// and after them two blank lines, which end a rule that is still being read.
pub open spec fn parse_outcome(st: MakefileView, text: Seq<char>) -> Outcome {
    let lines = crate::text::lines_of(text);
    let read = lines_outcome(MakefileView { current_rule: None, ..st }, lines, lines.len());
    if read.error is Some {
        read
    } else {
        let first = line_outcome(read.state, Seq::empty());
        if first.error is Some {
            first
        } else {
            line_outcome(first.state, Seq::empty())
        }
    }
}

/// The makefile at `path` before its first line is read.
pub open spec fn unread(path: Seq<char>, opts: OptsView, vars: Map<Seq<char>, VarView>) -> MakefileView {
    MakefileView {
        opts,
        log: Seq::empty(),
        vars,
        rule_map: RuleMapView { rules: Seq::empty(), by_target: Map::empty() },
        default_target: None,
        current_rule: None,
        context: ContextView { path: Some(path), ..crate::context::nowhere() },
    }
}


/// The targets that an execution brings up to date: those asked for, or the
/// default target where none is asked for.
pub open spec fn goals(asked: Seq<Seq<char>>, default_target: Option<Seq<char>>) -> Option<
    Seq<Seq<char>>,
> {
    if asked.len() > 0 {
        Some(asked)
    } else {
        match default_target {
            Some(t) => Some(seq![t]),
            None => None,
        }
    }
}

/// The first of `targets` whose name does not start with a dot.
fn first_plain_target(targets: &Vec<String>) -> (out: Option<String>)
    ensures
        crate::context::text_of(out) == default_after(None, texts(targets@)),
{
    let mut i: usize = 0;
    while i < targets.len()
        invariant
            i <= targets.len(),
            first_plain(texts(targets@), 0) == first_plain(texts(targets@), i as int),
        decreases targets.len() - i,
    {
        let name = chars_of(targets[i].as_str());
        assert(texts(targets@)[i as int] == name@);
        if name.len() > 0 && name[0] == '.' {
            i += 1;
        } else {
            return Some(targets[i].clone());
        }
    }
    None
}

impl<L: Logger> Makefile<L> {
    /// The logger that the log entries of parsing are written to.
    pub closed spec fn sink(&self) -> L {
        self.logger.logger()
    }

    /// Takes `text`, which followed the recipe prefix, as a recipe line.
    fn add_recipe(&mut self, text: &Vec<char>) -> (r: Result<(), MakeError>)
        ensures
            final(self)@ == recipe_outcome(old(self)@, text@).state,
            tells(r, recipe_outcome(old(self)@, text@).error),
            final(self).sink() == old(self).sink(),
    {
        let mut current: Option<Rule> = None;
        std::mem::swap(&mut current, &mut self.current_rule);
        match current {
            None => Err(MakeError::new("recipe without rule", self.context.clone())),
            Some(rule) => {
                let (a, b) = trim_bounds(text);
                if a == b {
                    self.current_rule = Some(rule);
                    return Ok(());
                }
                let cmd = string_of_range(text, a, b);
                match expand(cmd.as_str(), &self.vars) {
                    Err(msg) => {
                        self.current_rule = Some(rule);
                        Err(MakeError { msg, context: self.context.clone() })
                    },
                    Ok(line) => {
                        let mut rule = rule;
                        assert(texts(rule.recipe@.push(line)) =~= texts(rule.recipe@).push(line@));
                        rule.recipe.push(line);
                        self.current_rule = Some(rule);
                        Ok(())
                    },
                }
            },
        }
    }

    /// Ends the rule that is being read, if there is one.
    fn finish_rule(&mut self) -> (r: Result<(), MakeError>)
        ensures
            final(self)@ == end_rule(old(self)@).state,
            tells(r, end_rule(old(self)@).error),
            final(self).sink() == old(self).sink(),
    {
        let mut current: Option<Rule> = None;
        std::mem::swap(&mut current, &mut self.current_rule);
        match current {
            None => Ok(()),
            Some(rule) => {
                if self.default_target.is_none() {
                    self.default_target = first_plain_target(&rule.targets);
                }
                self.rule_map.insert(rule, &mut self.logger)
            },
        }
    }

    /// Reads a rule header: `left` holds the targets, `right` what follows
    /// the first colon.
    fn parse_header(&mut self, left: &Vec<char>, right: &Vec<char>) -> (r: Result<(), MakeError>)
        ensures
            final(self)@ == header_outcome(old(self)@, left@, right@).state,
            tells(r, header_outcome(old(self)@, left@, right@).error),
            final(self).sink() == old(self).sink(),
    {
        let double_colon = right.len() > 0 && right[0] == ':';
        let rest = if double_colon {
            slice_of(right, 1, right.len())
        } else {
            slice_of(right, 0, right.len())
        };
        assert(right@.subrange(0, right.len() as int) == right@);
        let semi = find_char_from(&rest, ';', 0);
        let deps = string_of_range(&rest, 0, semi);
        let targets_text = string_of(left);
        let targets = match expand(targets_text.as_str(), &self.vars) {
            Err(msg) => {
                return Err(MakeError { msg, context: self.context.clone() });
            },
            Ok(t) => t,
        };
        let prerequisites = match expand(deps.as_str(), &self.vars) {
            Err(msg) => {
                return Err(MakeError { msg, context: self.context.clone() });
            },
            Ok(p) => p,
        };
        let target_words = split_words(&chars_of(targets.as_str()));
        if target_words.len() == 0 {
            return Err(MakeError::new("Invalid line type.", self.context.clone()));
        }
        let rule = Rule {
            targets: target_words,
            prerequisites: split_words(&chars_of(prerequisites.as_str())),
            recipe: Vec::new(),
            context: self.context.clone(),
            double_colon,
        };
        assert(texts(rule.recipe@) =~= Seq::<Seq<char>>::empty());
        self.current_rule = Some(rule);
        if semi < rest.len() {
            let inline = slice_of(&rest, semi + 1, rest.len());
            self.add_recipe(&inline)
        } else {
            Ok(())
        }
    }

    /// Reads an assignment of `right` to the name `left`.
    fn parse_assignment(&mut self, left: &Vec<char>, right: &Vec<char>) -> (r: Result<
        (),
        MakeError,
    >)
        ensures
            final(self)@ == assignment_outcome(old(self)@, left@, right@).state,
            tells(r, assignment_outcome(old(self)@, left@, right@).error),
            final(self).sink() == old(self).sink(),
    {
        let start = skip_spaces_from(right, 0);
        let text = string_of_range(right, start, right.len());
        let value = match expand(text.as_str(), &self.vars) {
            Err(msg) => {
                return Err(MakeError { msg, context: self.context.clone() });
            },
            Ok(v) => v,
        };
        let name = string_of(left);
        match self.vars.set(name.as_str(), value.as_str(), false) {
            Ok(()) => Ok(()),
            Err(msg) => Err(MakeError { msg, context: self.context.clone() }),
        }
    }

    /// Reads one line of a makefile. A line that begins with the recipe
    /// prefix is a recipe line of the rule being read. Any other line ends
    /// that rule; what follows its first `#` is a comment, and the rest is
    /// blank, a rule header, an assignment, or an error.
    pub fn parse_line(&mut self, line: &str) -> (r: Result<(), MakeError>)
        ensures
            final(self)@ == line_outcome(old(self)@, line@).state,
            tells(r, line_outcome(old(self)@, line@).error),
            consistent(final(self)@.rule_map),
            final(self).sink() == old(self).sink(),
    {
        let r = self.read_line(line);
        proof {
            use_type_invariant(&self.rule_map);
        }
        r
    }

    /// Reads one line of a makefile, as `parse_line` does.
    fn read_line(&mut self, line: &str) -> (r: Result<(), MakeError>)
        ensures
            final(self)@ == line_outcome(old(self)@, line@).state,
            tells(r, line_outcome(old(self)@, line@).error),
            final(self).sink() == old(self).sink(),
    {
        reveal(line_outcome);
        let chars = chars_of(line);
        let prefix = chars_of(self.vars.get(".RECIPEPREFIX").value.as_str());
        if prefix.len() > 0 && chars.len() > 0 && chars[0] == prefix[0] {
            let text = slice_of(&chars, 1, chars.len());
            return self.add_recipe(&text);
        }
        match self.finish_rule() {
            Err(e) => {
                return Err(e);
            },
            Ok(()) => {},
        }
        let end = find_char_from(&chars, '#', 0);
        let body = slice_of(&chars, 0, end);
        let (a, b) = trim_bounds(&body);
        if a == b {
            return Ok(());
        }
        let colon = find_char_from(&body, ':', 0);
        if colon < body.len() {
            let left = slice_of(&body, 0, colon);
            let right = slice_of(&body, colon + 1, body.len());
            return self.parse_header(&left, &right);
        }
        let equals = find_char_from(&body, '=', 0);
        if equals < body.len() {
            let left = slice_of(&body, 0, equals);
            let right = slice_of(&body, equals + 1, body.len());
            return self.parse_assignment(&left, &right);
        }
        Err(MakeError::new("Invalid line type.", self.context.clone()))
    }

    /// Parses the makefile `text`, line by line; the lines are counted from
    /// 1. The first error ends the parsing.
    pub fn parse(&mut self, text: &str) -> (r: Result<(), MakeError>)
        ensures
            final(self)@ == parse_outcome(old(self)@, text@).state,
            tells(r, parse_outcome(old(self)@, text@).error),
            consistent(final(self)@.rule_map),
            final(self).sink() == old(self).sink(),
    {
        self.current_rule = None;
        let lines = crate::text::split_lines(text);
        let ghost start = self@;
        let ghost all = texts(lines@);
        let mut i: usize = 0;
        while i < lines.len()
            invariant
                i <= lines.len(),
                all == texts(lines@),
                all == crate::text::lines_of(text@),
                start == (MakefileView { current_rule: None, ..old(self)@ }),
                self@ == lines_outcome(start, all, i as nat).state,
                self.sink() == old(self).sink(),
                lines_outcome(start, all, i as nat).error is None,
            decreases lines.len() - i,
        {
            let line = &lines[i];
            assert(all[i as int] == line@);
            self.context.line_index = Some(i + 1);
            self.context.content = Some(line.clone());
            match self.parse_line(line.as_str()) {
                Err(e) => {
                    proof {
                        lemma_error_stays(start, all, (i + 1) as nat, all.len());
                    }
                    return Err(e);
                },
                Ok(()) => {},
            }
            i += 1;
        }
        proof {
            reveal_strlit("");
            assert(""@ =~= Seq::<char>::empty());
        }
        match self.parse_line("") {
            Err(e) => {
                return Err(e);
            },
            Ok(()) => {},
        }
        self.parse_line("")
    }

    /// The makefile at `path` before its first line is read.
    pub fn unread(path: &str, opts: Opts, logger: L, vars: Vars) -> (out: Self)
        ensures
            out@ == unread(path@, opts@, vars@),
            out.sink() == logger,
    {
        let makefile = Makefile {
            opts,
            logger: Journal::new(logger),
            vars,
            rule_map: RuleMap::new(),
            default_target: None,
            current_rule: None,
            context: Context::from_path(String::from_str(path)),
        };
        assert(makefile@.rule_map.rules =~= Seq::<RuleView>::empty());
        makefile
    }

    /// The makefile at `path` with the content `text`, parsed.
    pub fn new(path: &str, opts: Opts, logger: L, vars: Vars, text: &str) -> (r: Result<
        Self,
        MakeError,
    >)
        ensures
            ({
                let o = parse_outcome(unread(path@, opts@, vars@), text@);
                match o.error {
                    None => r is Ok && r->Ok_0@ == o.state,
                    Some(e) => r is Err && r->Err_0@ == e,
                }
            }),
            r is Ok ==> consistent(r->Ok_0@.rule_map),
            r is Ok ==> r->Ok_0.sink() == logger,
    {
        let mut makefile = Makefile::unread(path, opts, logger, vars);
        match makefile.parse(text) {
            Err(e) => Err(e),
            Ok(()) => Ok(makefile),
        }
    }

    /// The options of the run.
    pub fn opts(&self) -> (out: &Opts)
        ensures
            out@ == self@.opts,
    {
        &self.opts
    }

    /// The variables as they stand.
    pub fn vars(&self) -> (out: &Vars)
        ensures
            out@ == self@.vars,
    {
        &self.vars
    }

    /// The journal of what was logged while parsing.
    pub fn logger(&self) -> (out: &Journal<L>)
        ensures
            out.lines() == self@.log,
            out.logger() == self.sink(),
    {
        &self.logger
    }

    /// The rules that were read.
    pub fn rule_map(&self) -> (out: &RuleMap)
        ensures
            out@ == self@.rule_map,
            consistent(out@),
    {
        proof {
            use_type_invariant(&self.rule_map);
        }
        &self.rule_map
    }

    /// The target that is made where none is asked for.
    pub fn default_target(&self) -> (out: &Option<String>)
        ensures
            crate::context::text_of(*out) == self@.default_target,
    {
        &self.default_target
    }

    /// Begins an execution that brings `targets` up to date, in order, or the
    /// default target where `targets` is empty. Without either it fails.
    pub fn execute(&self, targets: Vec<String>) -> (r: Result<Execution<'_>, MakeError>)
        ensures
            match goals(texts(targets@), self@.default_target) {
                Some(goals) => r is Ok && r->Ok_0@ == (ExecutionView {
                    map: self@.rule_map,
                    opts: self@.opts,
                    vars: self@.vars,
                    targets: goals,
                    next_target: 0,
                    stack: Seq::empty(),
                    awaiting: Await::Go,
                }),
                None => r is Err && r->Err_0@ == (MakeErrorView {
                    msg: "No target specified and no default target found."@,
                    context: crate::context::nowhere(),
                }),
            },
    {
        let mut targets = targets;
        if targets.len() == 0 {
            match &self.default_target {
                None => {
                    return Err(
                        MakeError::new(
                            "No target specified and no default target found.",
                            Context::new(),
                        ),
                    );
                },
                Some(t) => {
                    targets.push(t.clone());
                    assert(texts(targets@) =~= seq![t@]);
                },
            }
        }
        Ok(Execution::new(&self.rule_map, &self.opts, &self.vars, targets))
    }
}

/// Once a line stopped the reading, the lines after it change nothing.
proof fn lemma_error_stays(st: MakefileView, lines: Seq<Seq<char>>, k: nat, n: nat)
    requires
        k <= n <= lines.len(),
        lines_outcome(st, lines, k).error is Some,
    ensures
        lines_outcome(st, lines, n) == lines_outcome(st, lines, k),
    decreases n - k,
{
    if k < n {
        lemma_error_stays(st, lines, k, (n - 1) as nat);
    }
}

/// Whether `rule` has at least one target and no target with an empty name.
pub open spec fn rule_sound(rule: RuleView) -> bool {
    &&& rule.targets.len() > 0
    &&& forall|i: int| 0 <= i < rule.targets.len() ==> (#[trigger] rule.targets[i]).len() > 0
}

/// Whether the rules that were read, and the one being read, are all sound.
pub open spec fn rules_sound(st: MakefileView) -> bool {
    &&& forall|i: int|
        0 <= i < st.rule_map.rules.len() ==> rule_sound(#[trigger] st.rule_map.rules[i])
    &&& st.current_rule is Some ==> rule_sound(st.current_rule->Some_0)
}

/// Reading a line keeps the rules sound: every rule that the parser builds
/// has at least one target, and none with an empty name.
pub proof fn lemma_line_keeps_rules_sound(st: MakefileView, line: Seq<char>)
    requires
        rules_sound(st),
    ensures
        rules_sound(line_outcome(st, line).state),
{
    reveal(line_outcome);
    if !is_recipe_line(st.vars, line) {
        let ended = end_rule(st);
        assert(rules_sound(ended.state)) by {
            if st.current_rule is Some {
                let rule = st.current_rule->Some_0;
                let rules = st.rule_map.rules.push(rule);
                assert forall|i: int| 0 <= i < rules.len() implies rule_sound(
                    #[trigger] rules[i],
                ) by {
                    if i < st.rule_map.rules.len() {
                        assert(rules[i] == st.rule_map.rules[i]);
                    }
                }
            }
        }
        if ended.error is None {
            let mid = ended.state;
            let body = line.subrange(0, find_from(line, '#', 0));
            let colon = find_from(body, ':', 0);
            if trim(body).len() != 0 && colon < body.len() {
                let left = body.subrange(0, colon);
                match expansion(left, mid.vars) {
                    Ok(targets) => {
                        crate::text::lemma_words_sound(targets);
                    },
                    Err(_) => {},
                }
            }
        }
    }
}

/// Parsing a makefile keeps the rules sound.
pub proof fn lemma_parse_keeps_rules_sound(st: MakefileView, text: Seq<char>)
    requires
        rules_sound(MakefileView { current_rule: None, ..st }),
    ensures
        rules_sound(parse_outcome(st, text).state),
{
    let lines = crate::text::lines_of(text);
    let begun = MakefileView { current_rule: None, ..st };
    lemma_lines_keep_rules_sound(begun, lines, lines.len());
    let read = lines_outcome(begun, lines, lines.len());
    if read.error is None {
        lemma_line_keeps_rules_sound(read.state, Seq::empty());
        let first = line_outcome(read.state, Seq::empty());
        if first.error is None {
            lemma_line_keeps_rules_sound(first.state, Seq::empty());
        }
    }
}

proof fn lemma_lines_keep_rules_sound(st: MakefileView, lines: Seq<Seq<char>>, n: nat)
    requires
        rules_sound(st),
        n <= lines.len(),
    ensures
        rules_sound(lines_outcome(st, lines, n).state),
    decreases n,
{
    if n > 0 {
        lemma_lines_keep_rules_sound(st, lines, (n - 1) as nat);
        let prev = lines_outcome(st, lines, (n - 1) as nat);
        if prev.error is None {
            lemma_line_keeps_rules_sound(
                at_line(prev.state, n as usize, lines[n - 1]),
                lines[n - 1],
            );
        }
    }
}

} // verus!
