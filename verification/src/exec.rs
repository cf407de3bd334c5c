//! An execution: the decisions of bringing targets up to date, step by step.

use crate::context::Context;
use crate::error::{tells, MakeError, MakeErrorView};
use crate::logger::{log_info, Journal, Logger};
use crate::opts::{listed, Opts};
use crate::rule_map::{Rule, RuleMap, RuleView};
use crate::step::{
    action_of, ask, at_line, at_prereq, begin, exit_error, exit_step, fail, failure, has_modifier,
    line_step, modifiers_end, notice, prereq_seen, prereq_step, recipe_action, reject, rules_at,
    step_of, target_seen, took, up_to_date, very_new, Action, Await, Event, EventView,
    ExecutionView, Phase, VisitView, EPOCH, YEAR,
};
use crate::text::{
    chars_of, push_signed_decimal, push_str, skip_spaces, skip_spaces_from, split_words,
    string_of, texts,
};
use crate::vars::Vars;
use vstd::prelude::*;
use vstd::string::StringExecFns;

verus! {

/// The visit of a target.
pub struct Visit<'a> {
    target: String,
    rules: Vec<&'a Rule>,
    target_mtime: Option<u64>,
    rule_pos: usize,
    prereq_pos: usize,
    line_pos: usize,
    echoed: bool,
    should: bool,
    executed: bool,
    phase: Phase,
}

/// What borrowed rules are to the contracts.
pub open spec fn borrowed_rules(rules: Seq<&Rule>) -> Seq<RuleView> {
    rules.map_values(|r: &Rule| r@)
}

impl<'a> View for Visit<'a> {
    type V = VisitView;

    closed spec fn view(&self) -> VisitView {
        VisitView {
            target: self.target@,
            rules: borrowed_rules(self.rules@),
            target_mtime: self.target_mtime,
            rule_pos: self.rule_pos,
            prereq_pos: self.prereq_pos,
            line_pos: self.line_pos,
            echoed: self.echoed,
            should: self.should,
            executed: self.executed,
            phase: self.phase,
        }
    }
}

/// What visits are to the contracts.
pub open spec fn visits(stack: Seq<Visit>) -> Seq<VisitView> {
    stack.map_values(|v: Visit| v@)
}

/// An execution: the targets asked for, and how far bringing them up to date
/// has come.
pub struct Execution<'a> {
    map: &'a RuleMap,
    opts: &'a Opts,
    vars: &'a Vars,
    targets: Vec<String>,
    next_target: usize,
    stack: Vec<Visit<'a>>,
    awaiting: Await,
}

impl<'a> View for Execution<'a> {
    type V = ExecutionView;

    closed spec fn view(&self) -> ExecutionView {
        ExecutionView {
            map: self.map@,
            opts: self.opts@,
            vars: self.vars@,
            targets: texts(self.targets@),
            next_target: self.next_target,
            stack: visits(self.stack@),
            awaiting: self.awaiting,
        }
    }
}

/// Which of the modifiers `@`, `-` and `+` the recipe line `line` carries.
pub fn modifiers(line: &str) -> (out: (bool, bool, bool))
    ensures
        out.0 == has_modifier(line@, '@'),
        out.1 == has_modifier(line@, '-'),
        out.2 == has_modifier(line@, '+'),
{
    let v = chars_of(line);
    let from = skip_spaces_from(&v, 0);
    let mut silent = false;
    let mut ignore = false;
    let mut force = false;
    let mut i: usize = from;
    while i < v.len() && (v[i] == '@' || v[i] == '-' || v[i] == '+')
        invariant
            from <= i <= v.len(),
            v@ == line@,
            from == skip_spaces(v@, 0),
            modifiers_end(v@, from as int) == modifiers_end(v@, i as int),
            silent == (exists|k: int| from <= k < i && v@[k] == '@'),
            ignore == (exists|k: int| from <= k < i && v@[k] == '-'),
            force == (exists|k: int| from <= k < i && v@[k] == '+'),
        decreases v.len() - i,
    {
        if v[i] == '@' {
            silent = true;
        } else if v[i] == '-' {
            ignore = true;
        } else {
            force = true;
        }
        i += 1;
    }
    (silent, ignore, force)
}

/// The time of a file pinned as very new, where the time now is `now`.
pub fn very_new_time(now: u64) -> (out: u64)
    ensures
        out == very_new(now),
{
    if now <= u64::MAX - YEAR {
        now + YEAR
    } else {
        u64::MAX
    }
}

/// The message that `target` is up to date.
fn up_to_date_message(target: &str, old: bool) -> (out: String)
    ensures
        out@ == up_to_date(target@, old),
{
    let mut out = String::from_str("Target '");
    out.append(target);
    if old {
        out.append("' is up to date (old).");
    } else {
        out.append("' is up to date.");
    }
    out
}

impl RuleMap {
    /// Begins to bring `target` up to date. A file pinned as very old is up
    /// to date, which is logged, and there is no visit. A target without
    /// rules is an error. Else the visit of the target begins.
    pub fn execute<'a, L: Logger>(&'a self, opts: &Opts, logger: &mut Journal<L>, target: &str) -> (r:
        Result<Option<Visit<'a>>, MakeError>)
        ensures
            opts@.old_file.contains(target@) ==> r is Ok && r->Ok_0 is None,
            opts@.old_file.contains(target@) ==> final(logger).lines() == old(logger).lines().push(
                notice(up_to_date(target@, true)),
            ),
            !opts@.old_file.contains(target@) ==> final(logger).lines() == old(logger).lines(),
            final(logger).logger() == old(logger).logger(),
            !opts@.old_file.contains(target@) && !self@.by_target.contains_key(target@) ==> r is Err
                && r->Err_0@ == failure("No rule to make target '"@ + target@ + "'."@),
            !opts@.old_file.contains(target@) && self@.by_target.contains_key(target@) ==> r is Ok
                && r->Ok_0 is Some && r->Ok_0->Some_0@ == (VisitView {
                target: target@,
                rules: rules_at(self@, self@.by_target[target@]),
                target_mtime: None,
                rule_pos: 0,
                prereq_pos: 0,
                line_pos: 0,
                echoed: false,
                should: opts@.always_make,
                executed: false,
                phase: Phase::Enter,
            }),
    {
        if listed(&opts.old_file, target) {
            let msg = up_to_date_message(target, true);
            let place = Context::new();
            log_info(logger, msg.as_str(), Some(&place));
            return Ok(None);
        }
        match self.rules_for(target) {
            None => {
                let mut msg = String::from_str("No rule to make target '");
                msg.append(target);
                msg.append("'.");
                Err(MakeError { msg, context: Context::new() })
            },
            Some(rules) => {
                assert(borrowed_rules(rules@) =~= rules_at(self@, self@.by_target[target@]));
                Ok(
                    Some(
                        Visit {
                            target: String::from_str(target),
                            rules,
                            target_mtime: None,
                            rule_pos: 0,
                            prereq_pos: 0,
                            line_pos: 0,
                            echoed: false,
                            should: opts.always_make,
                            executed: false,
                            phase: Phase::Enter,
                        },
                    ),
                )
            },
        }
    }
}

impl Rule {
    /// What is to be done for the recipe line `line_pos` of this rule, or
    /// none where the recipe has no such line; `echoed` tells that the line
    /// was printed.
    pub fn execute(&self, opts: &Opts, vars: &Vars, line_pos: usize, echoed: bool) -> (out: Option<
        Action,
    >)
        ensures
            action_of(out) == recipe_action(self@, opts@, vars@, line_pos, echoed),
    {
        if line_pos >= self.recipe.len() {
            return None;
        }
        let line = &self.recipe[line_pos];
        assert(texts(self.recipe@)[line_pos as int] == line@);
        let (silent, _ignore, force) = modifiers(line.as_str());
        if !echoed && (!silent || opts.just_print) {
            Some(Action::Echo(line.clone()))
        } else if opts.just_print && !force {
            Some(Action::Proceed)
        } else {
            let shell = vars.get("SHELL").value.clone();
            let flags = split_words(&chars_of(vars.get(".SHELLFLAGS").value.as_str()));
            Some(Action::Spawn { shell, flags, line: line.clone() })
        }
    }

    /// Judges how the recipe line `line_pos` of this rule ended.
    pub fn judge(&self, opts: &Opts, line_pos: usize, code: Option<i32>) -> (r: Result<
        (),
        MakeError,
    >)
        requires
            line_pos < self.recipe.len(),
        ensures
            tells(r, exit_error(self@, opts@, line_pos, code)),
    {
        let line = &self.recipe[line_pos];
        assert(texts(self.recipe@)[line_pos as int] == line@);
        let (_silent, ignore, _force) = modifiers(line.as_str());
        if ignore || opts.ignore_errors {
            return Ok(());
        }
        match code {
            Some(c) => {
                if c == 0 {
                    Ok(())
                } else {
                    let mut msg: Vec<char> = Vec::new();
                    push_str(&mut msg, "Failed with code ");
                    push_signed_decimal(&mut msg, c);
                    push_str(&mut msg, ".");
                    Err(MakeError { msg: string_of(&msg), context: self.context.clone() })
                }
            },
            None => Err(MakeError::new("Killed.", self.context.clone())),
        }
    }
}

impl<'a> Execution<'a> {
    /// The execution that brings `targets` up to date, in order.
    pub fn new(map: &'a RuleMap, opts: &'a Opts, vars: &'a Vars, targets: Vec<String>) -> (out:
        Self)
        ensures
            out@ == (ExecutionView {
                map: map@,
                opts: opts@,
                vars: vars@,
                targets: texts(targets@),
                next_target: 0,
                stack: Seq::empty(),
                awaiting: Await::Go,
            }),
    {
        let out = Execution {
            map,
            opts,
            vars,
            targets,
            next_target: 0,
            stack: Vec::new(),
            awaiting: Await::Go,
        };
        assert(visits(out.stack@) =~= Seq::<VisitView>::empty());
        out
    }

    /// Which answer the execution waits for.
    pub fn awaiting(&self) -> (out: Await)
        ensures
            out == self@.awaiting,
    {
        self.awaiting
    }

    /// Fails with `error`.
    fn fail(&mut self, error: MakeError) -> (action: Action)
        ensures
            final(self)@ == fail(old(self)@, error@).state,
            action@ == fail(old(self)@, error@).action,
    {
        self.awaiting = Await::Over;
        Action::Failed(error)
    }

    /// Fails on an answer that was not waited for.
    fn reject(&mut self) -> (action: Action)
        ensures
            final(self)@ == reject(old(self)@).state,
            action@ == reject(old(self)@).action,
    {
        self.fail(MakeError::new("Unexpected event.", Context::new()))
    }

    /// Begins to bring `target` up to date.
    fn begin<L: Logger>(&mut self, logger: &mut Journal<L>, target: &str) -> (action: Action)
        ensures
            took(
                old(logger).lines(),
                final(self)@,
                final(logger).lines(),
                action@,
                begin(old(self)@, target@),
            ),
            final(logger).logger() == old(logger).logger(),
    {
        let ghost before = old(logger).lines();
        match self.map.execute(self.opts, logger, target) {
            Err(e) => {
                assert(before + Seq::<Seq<char>>::empty() == before);
                self.fail(e)
            },
            Ok(None) => {
                assert(before + seq![notice(up_to_date(target@, true))] == before.push(
                    notice(up_to_date(target@, true)),
                ));
                self.awaiting = Await::Go;
                Action::Proceed
            },
            Ok(Some(visit)) => {
                assert(before + Seq::<Seq<char>>::empty() == before);
                assert(visits(self.stack@.push(visit)) =~= visits(self.stack@).push(visit@));
                self.stack.push(visit);
                self.awaiting = Await::Go;
                Action::Proceed
            },
        }
    }

    /// Asks when `name` was modified.
    fn ask(&mut self, name: &str, for_target: bool) -> (action: Action)
        ensures
            final(self)@ == ask(old(self)@, name@, for_target).state,
            action@ == ask(old(self)@, name@, for_target).action,
    {
        if listed(&self.opts.new_file, name) {
            self.awaiting = if for_target {
                Await::TargetClock
            } else {
                Await::PrereqClock
            };
            Action::Clock
        } else {
            self.awaiting = if for_target {
                Await::TargetMtime
            } else {
                Await::PrereqMtime
            };
            Action::Stat(String::from_str(name))
        }
    }

    /// Takes `mtime` as the time the target of the innermost visit was
    /// modified.
    fn target_seen(&mut self, mtime: Option<u64>) -> (action: Action)
        requires
            old(self)@.stack.len() > 0,
        ensures
            final(self)@ == target_seen(old(self)@, mtime).state,
            action@ == target_seen(old(self)@, mtime).action,
    {
        let mut top = self.stack.pop().unwrap();
        assert(visits(self.stack@) =~= old(self)@.stack.drop_last());
        assert(top@ == old(self)@.stack.last());
        top.target_mtime = mtime;
        top.phase = Phase::Prereqs;
        assert(visits(self.stack@.push(top)) =~= visits(self.stack@).push(top@));
        self.stack.push(top);
        self.awaiting = Await::Go;
        Action::Proceed
    }

    /// Takes `mtime` as the time the prerequisite at hand was modified.
    fn prereq_seen<L: Logger>(&mut self, logger: &mut Journal<L>, mtime: Option<u64>) -> (action: Action)
        requires
            at_prereq(old(self)@),
        ensures
            took(
                old(logger).lines(),
                final(self)@,
                final(logger).lines(),
                action@,
                prereq_seen(old(self)@, mtime),
            ),
            final(logger).logger() == old(logger).logger(),
    {
        let ghost before = old(logger).lines();
        let mut top = self.stack.pop().unwrap();
        assert(visits(self.stack@) =~= old(self)@.stack.drop_last());
        assert(top@ == old(self)@.stack.last());
        assert(top@.rules[top.rule_pos as int] == top.rules@[top.rule_pos as int]@);
        let rule: &Rule = top.rules[top.rule_pos];
        let count = rule.prerequisites.len();
        assert(rule@.prerequisites.len() == count);
        let name = rule.prerequisites[top.prereq_pos].clone();
        assert(texts(rule.prerequisites@)[top.prereq_pos as int] == name@);
        top.prereq_pos = top.prereq_pos + 1;
        match mtime {
            None => {
                top.should = true;
                assert(visits(self.stack@.push(top)) =~= visits(self.stack@).push(top@));
                self.stack.push(top);
                self.begin(logger, name.as_str())
            },
            Some(p) => {
                let newer = match top.target_mtime {
                    Some(t) => p > t,
                    None => false,
                };
                top.should = top.should || newer;
                assert(visits(self.stack@.push(top)) =~= visits(self.stack@).push(top@));
                self.stack.push(top);
                self.awaiting = Await::Go;
                assert(before + Seq::<Seq<char>>::empty() == before);
                Action::Proceed
            },
        }
    }

    /// The step of a visit that looks at prerequisites.
    fn prereq_step<L: Logger>(&mut self, logger: &mut Journal<L>) -> (action: Action)
        requires
            old(self)@.stack.len() > 0,
        ensures
            took(
                old(logger).lines(),
                final(self)@,
                final(logger).lines(),
                action@,
                prereq_step(old(self)@),
            ),
            final(logger).logger() == old(logger).logger(),
    {
        let ghost before = old(logger).lines();
        let ghost st = old(self)@;
        let mut top = self.stack.pop().unwrap();
        assert(visits(self.stack@) =~= st.stack.drop_last());
        assert(top@ == st.stack.last());
        if top.rule_pos >= top.rules.len() {
            if !top.executed {
                let msg = up_to_date_message(top.target.as_str(), false);
                let place = Context::new();
                log_info(logger, msg.as_str(), Some(&place));
                assert(before + seq![notice(up_to_date(top@.target, false))] == before.push(
                    notice(up_to_date(top@.target, false)),
                ));
            } else {
                assert(before + Seq::<Seq<char>>::empty() == before);
            }
            self.awaiting = Await::Go;
            return Action::Proceed;
        }
        assert(top@.rules[top.rule_pos as int] == top.rules@[top.rule_pos as int]@);
        let rule: &Rule = top.rules[top.rule_pos];
        let count = rule.prerequisites.len();
        assert(rule@.prerequisites.len() == count);
        if top.prereq_pos < count {
            let name = rule.prerequisites[top.prereq_pos].clone();
            assert(texts(rule.prerequisites@)[top.prereq_pos as int] == name@);
            if self.opts.always_make {
                top.prereq_pos = top.prereq_pos + 1;
                assert(visits(self.stack@.push(top)) =~= visits(self.stack@).push(top@));
                self.stack.push(top);
                self.begin(logger, name.as_str())
            } else if listed(&self.opts.old_file, name.as_str()) {
                assert(visits(self.stack@.push(top)) =~= visits(self.stack@).push(top@));
                self.stack.push(top);
                assert(self@.stack =~= st.stack);
                assert(self@ == st);
                self.prereq_seen(logger, Some(EPOCH))
            } else {
                assert(visits(self.stack@.push(top)) =~= visits(self.stack@).push(top@));
                self.stack.push(top);
                assert(self@.stack =~= st.stack);
                assert(self@ == st);
                assert(before + Seq::<Seq<char>>::empty() == before);
                self.ask(name.as_str(), false)
            }
        } else {
            if top.target_mtime.is_none() || top.should {
                top.phase = Phase::Lines;
                top.line_pos = 0;
                top.echoed = false;
                top.executed = true;
            } else {
                top.rule_pos = top.rule_pos + 1;
                top.prereq_pos = 0;
                top.line_pos = 0;
                top.echoed = false;
                top.should = self.opts.always_make;
                top.phase = Phase::Prereqs;
            }
            assert(visits(self.stack@.push(top)) =~= visits(self.stack@).push(top@));
            self.stack.push(top);
            self.awaiting = Await::Go;
            assert(before + Seq::<Seq<char>>::empty() == before);
            Action::Proceed
        }
    }

    /// The step of a visit that works through a recipe.
    fn line_step(&mut self) -> (action: Action)
        requires
            old(self)@.stack.len() > 0,
        ensures
            final(self)@ == line_step(old(self)@).state,
            action@ == line_step(old(self)@).action,
    {
        let ghost st = old(self)@;
        let mut top = self.stack.pop().unwrap();
        assert(visits(self.stack@) =~= st.stack.drop_last());
        assert(top@ == st.stack.last());
        if top.rule_pos >= top.rules.len() {
            top.phase = Phase::Prereqs;
            assert(visits(self.stack@.push(top)) =~= visits(self.stack@).push(top@));
            self.stack.push(top);
            self.awaiting = Await::Go;
            return Action::Proceed;
        }
        assert(top@.rules[top.rule_pos as int] == top.rules@[top.rule_pos as int]@);
        let rule: &Rule = top.rules[top.rule_pos];
        let count = rule.recipe.len();
        assert(rule@.recipe.len() == count);
        let decided = rule.execute(self.opts, self.vars, top.line_pos, top.echoed);
        match decided {
            None => {
                top.rule_pos = top.rule_pos + 1;
                top.prereq_pos = 0;
                top.line_pos = 0;
                top.echoed = false;
                top.should = self.opts.always_make;
                top.phase = Phase::Prereqs;
                assert(visits(self.stack@.push(top)) =~= visits(self.stack@).push(top@));
                self.stack.push(top);
                self.awaiting = Await::Go;
                Action::Proceed
            },
            Some(Action::Echo(line)) => {
                top.echoed = true;
                assert(visits(self.stack@.push(top)) =~= visits(self.stack@).push(top@));
                self.stack.push(top);
                self.awaiting = Await::Go;
                Action::Echo(line)
            },
            Some(Action::Proceed) => {
                top.line_pos = top.line_pos + 1;
                top.echoed = false;
                assert(visits(self.stack@.push(top)) =~= visits(self.stack@).push(top@));
                self.stack.push(top);
                self.awaiting = Await::Go;
                Action::Proceed
            },
            Some(action) => {
                assert(visits(self.stack@.push(top)) =~= visits(self.stack@).push(top@));
                self.stack.push(top);
                assert(self@.stack =~= st.stack);
                assert(self@ == st);
                self.awaiting = Await::Exit;
                action
            },
        }
    }

    /// Takes the way the recipe line at hand ended: `code`, or where no
    /// process could be started, the reason.
    fn exit_step(&mut self, code: Option<i32>, reason: Option<String>) -> (action: Action)
        requires
            old(self)@.stack.len() > 0,
            at_line(old(self)@.stack.last()),
        ensures
            reason is None ==> final(self)@ == exit_step(old(self)@, code).state && action@
                == exit_step(old(self)@, code).action,
            reason is Some ==> final(self)@ == fail(
                old(self)@,
                MakeErrorView {
                    msg: reason->Some_0@,
                    context: old(self)@.stack.last().rules[old(self)@.stack.last().rule_pos
                        as int].context,
                },
            ).state && action@ == fail(
                old(self)@,
                MakeErrorView {
                    msg: reason->Some_0@,
                    context: old(self)@.stack.last().rules[old(self)@.stack.last().rule_pos
                        as int].context,
                },
            ).action,
    {
        let ghost st = old(self)@;
        let mut top = self.stack.pop().unwrap();
        assert(visits(self.stack@) =~= st.stack.drop_last());
        assert(top@ == st.stack.last());
        assert(top@.rules[top.rule_pos as int] == top.rules@[top.rule_pos as int]@);
        let rule: &Rule = top.rules[top.rule_pos];
        let count = rule.recipe.len();
        assert(rule@.recipe.len() == count);
        let judged = match reason {
            Some(msg) => Err(MakeError { msg, context: rule.context.clone() }),
            None => rule.judge(self.opts, top.line_pos, code),
        };
        match judged {
            Ok(()) => {
                top.line_pos = top.line_pos + 1;
                top.echoed = false;
                assert(visits(self.stack@.push(top)) =~= visits(self.stack@).push(top@));
                self.stack.push(top);
                self.awaiting = Await::Go;
                Action::Proceed
            },
            Err(e) => {
                assert(visits(self.stack@.push(top)) =~= visits(self.stack@).push(top@));
                self.stack.push(top);
                assert(self@.stack =~= st.stack);
                assert(self@ == st);
                self.fail(e)
            },
        }
    }

    /// Whether the innermost visit has a prerequisite at hand.
    fn has_prereq(&self) -> (out: bool)
        ensures
            out == at_prereq(self@),
    {
        if self.stack.len() == 0 {
            return false;
        }
        let top = &self.stack[self.stack.len() - 1];
        assert(top@ == self@.stack.last());
        if top.rule_pos >= top.rules.len() {
            return false;
        }
        assert(top@.rules[top.rule_pos as int] == top.rules@[top.rule_pos as int]@);
        let rule: &Rule = top.rules[top.rule_pos];
        let count = rule.prerequisites.len();
        assert(rule@.prerequisites.len() == count);
        top.prereq_pos < count
    }

    /// Whether the innermost visit has a recipe line at hand.
    fn has_line(&self) -> (out: bool)
        ensures
            out == (self@.stack.len() > 0 && at_line(self@.stack.last())),
    {
        if self.stack.len() == 0 {
            return false;
        }
        let top = &self.stack[self.stack.len() - 1];
        assert(top@ == self@.stack.last());
        if top.rule_pos >= top.rules.len() {
            return false;
        }
        assert(top@.rules[top.rule_pos as int] == top.rules@[top.rule_pos as int]@);
        let rule: &Rule = top.rules[top.rule_pos];
        let count = rule.recipe.len();
        assert(rule@.recipe.len() == count);
        top.line_pos < count
    }

    /// The step on the answer `Go`, where that was waited for.
    fn go<L: Logger>(&mut self, logger: &mut Journal<L>) -> (action: Action)
        requires
            old(self)@.awaiting == Await::Go,
        ensures
            took(
                old(logger).lines(),
                final(self)@,
                final(logger).lines(),
                action@,
                step_of(old(self)@, EventView::Go),
            ),
            final(logger).logger() == old(logger).logger(),
    {
        let ghost before = old(logger).lines();
        let ghost st = old(self)@;
        assert(before + Seq::<Seq<char>>::empty() == before);
        if self.stack.len() == 0 {
            if self.next_target < self.targets.len() {
                let target = self.targets[self.next_target].clone();
                assert(texts(self.targets@)[self.next_target as int] == target@);
                self.next_target = self.next_target + 1;
                self.begin(logger, target.as_str())
            } else {
                self.awaiting = Await::Over;
                Action::Finished
            }
        } else {
            let top = &self.stack[self.stack.len() - 1];
            assert(top@ == st.stack.last());
            match top.phase {
                Phase::Enter => {
                    let target = top.target.clone();
                    if listed(&self.opts.old_file, target.as_str()) {
                        self.target_seen(Some(EPOCH))
                    } else {
                        self.ask(target.as_str(), true)
                    }
                },
                Phase::Prereqs => self.prereq_step(logger),
                Phase::Lines => self.line_step(),
            }
        }
    }

    /// Takes the answer `event` to the last request and gives the next
    /// request. An answer of another kind than the one waited for fails the
    /// execution, and so does any answer once it is over.
    pub fn step<L: Logger>(&mut self, logger: &mut Journal<L>, event: Event) -> (action: Action)
        ensures
            took(
                old(logger).lines(),
                final(self)@,
                final(logger).lines(),
                action@,
                step_of(old(self)@, event@),
            ),
            final(logger).logger() == old(logger).logger(),
    {
        let ghost before = old(logger).lines();
        assert(before + Seq::<Seq<char>>::empty() == before);
        match self.awaiting {
            Await::Go => match event {
                Event::Go => self.go(logger),
                _ => self.reject(),
            },
            Await::TargetMtime => match event {
                Event::Mtime(t) => if self.stack.len() > 0 {
                    self.target_seen(t)
                } else {
                    self.reject()
                },
                _ => self.reject(),
            },
            Await::TargetClock => match event {
                Event::Clock(now) => if self.stack.len() > 0 {
                    self.target_seen(Some(very_new_time(now)))
                } else {
                    self.reject()
                },
                _ => self.reject(),
            },
            Await::PrereqMtime => match event {
                Event::Mtime(t) => if self.has_prereq() {
                    self.prereq_seen(logger, t)
                } else {
                    self.reject()
                },
                _ => self.reject(),
            },
            Await::PrereqClock => match event {
                Event::Clock(now) => if self.has_prereq() {
                    self.prereq_seen(logger, Some(very_new_time(now)))
                } else {
                    self.reject()
                },
                _ => self.reject(),
            },
            Await::Exit => match event {
                Event::Exited(code) => if self.has_line() {
                    self.exit_step(code, None)
                } else {
                    self.reject()
                },
                Event::SpawnFailed(msg) => if self.has_line() {
                    self.exit_step(None, Some(msg))
                } else {
                    self.reject()
                },
                _ => self.reject(),
            },
            Await::Over => self.reject(),
        }
    }
}

} // verus!
