//! The steps of an execution.
//!
//! Bringing targets up to date alternates between deciding and outside work:
//! asking for the time a file was modified, printing a recipe line, running
//! it in a shell. An execution holds the decisions: each of its steps takes
//! the answer to the last request and gives the next request, and the caller
//! does the outside work in between. This module says what a step is.

use crate::context::nowhere;
use crate::error::{MakeError, MakeErrorView};
use crate::logger::{log_entry, INFO};
use crate::opts::OptsView;
use crate::rule_map::{RuleMapView, RuleView};
use crate::text::{signed_decimal, skip_spaces, texts, words};
use crate::vars::{lookup, VarView};
use vstd::prelude::*;

verus! {

/// The time that a file pinned as very old was modified. Times are counted
/// in nanoseconds since the epoch.
pub const EPOCH: u64 = 0;

/// How far in the future a file pinned as very new was modified: one year of
/// 365 days, in nanoseconds.
pub const YEAR: u64 = 31_536_000_000_000_000;

/// The answer to a request.
pub enum Event {
    /// The answer to `Proceed` and `Echo`, and the start.
    Go,
    /// The answer to `Stat`: the time the file was modified, in nanoseconds
    /// since the epoch, or none where that cannot be told.
    Mtime(Option<u64>),
    /// The answer to `Clock`: the time now, in nanoseconds since the epoch.
    Clock(u64),
    /// The answer to `Spawn`: the exit code of the process, or none where a
    /// signal ended it.
    Exited(Option<i32>),
    /// The answer to `Spawn` where no process could be started, with the
    /// reason.
    SpawnFailed(String),
}

/// What an answer is to the contracts.
pub enum EventView {
    Go,
    Mtime(Option<u64>),
    Clock(u64),
    Exited(Option<i32>),
    SpawnFailed(Seq<char>),
}

impl View for Event {
    type V = EventView;

    open spec fn view(&self) -> EventView {
        match self {
            Event::Go => EventView::Go,
            Event::Mtime(t) => EventView::Mtime(*t),
            Event::Clock(t) => EventView::Clock(*t),
            Event::Exited(c) => EventView::Exited(*c),
            Event::SpawnFailed(m) => EventView::SpawnFailed(m@),
        }
    }
}

/// A request to the caller.
pub enum Action {
    /// Nothing to do outside: answer with `Go`.
    Proceed,
    /// Tell when the file was modified: answer with `Mtime`.
    Stat(String),
    /// Tell the time: answer with `Clock`.
    Clock,
    /// Print the recipe line: answer with `Go`.
    Echo(String),
    /// Run the recipe line: `shell`, then `flags`, then `line` as arguments;
    /// answer with `Exited` or `SpawnFailed`.
    Spawn { shell: String, flags: Vec<String>, line: String },
    /// All targets are up to date.
    Finished,
    /// The execution has failed.
    Failed(MakeError),
}

/// What a request is to the contracts.
pub enum ActionView {
    Proceed,
    Stat(Seq<char>),
    Clock,
    Echo(Seq<char>),
    Spawn { shell: Seq<char>, flags: Seq<Seq<char>>, line: Seq<char> },
    Finished,
    Failed(MakeErrorView),
}

impl View for Action {
    type V = ActionView;

    open spec fn view(&self) -> ActionView {
        match self {
            Action::Proceed => ActionView::Proceed,
            Action::Stat(n) => ActionView::Stat(n@),
            Action::Clock => ActionView::Clock,
            Action::Echo(l) => ActionView::Echo(l@),
            Action::Spawn { shell, flags, line } => ActionView::Spawn {
                shell: shell@,
                flags: texts(flags@),
                line: line@,
            },
            Action::Finished => ActionView::Finished,
            Action::Failed(e) => ActionView::Failed(e@),
        }
    }
}

/// What a visit is doing.
#[derive(Clone, Copy, PartialEq, Eq, Structural, Debug)]
pub enum Phase {
    /// It has yet to learn when its target was modified.
    Enter,
    /// It looks at the prerequisites of a rule.
    Prereqs,
    /// It works through the recipe of a rule.
    Lines,
}

/// Which answer an execution waits for.
#[derive(Clone, Copy, PartialEq, Eq, Structural, Debug)]
pub enum Await {
    /// `Go`.
    Go,
    /// `Mtime`, for the target of the innermost visit.
    TargetMtime,
    /// `Clock`, for the target of the innermost visit.
    TargetClock,
    /// `Mtime`, for the prerequisite at hand of the innermost visit.
    PrereqMtime,
    /// `Clock`, for the prerequisite at hand of the innermost visit.
    PrereqClock,
    /// `Exited` or `SpawnFailed`, for the recipe line at hand.
    Exit,
    /// None: the execution is over.
    Over,
}

/// What the visit of a target is to the contracts.
pub struct VisitView {
    pub target: Seq<char>,
    /// The rules of the target, in the order in which they were inserted.
    pub rules: Seq<RuleView>,
    /// When the target was modified, or none where it is missing.
    pub target_mtime: Option<u64>,
    /// The rule at hand.
    pub rule_pos: usize,
    /// The prerequisite at hand, of the rule at hand.
    pub prereq_pos: usize,
    /// The recipe line at hand, of the rule at hand.
    pub line_pos: usize,
    /// Whether the recipe line at hand was printed.
    pub echoed: bool,
    /// Whether a prerequisite showed that the recipe at hand has to run.
    pub should: bool,
    /// Whether a recipe ran for the target.
    pub executed: bool,
    pub phase: Phase,
}

/// What an execution is to the contracts.
pub struct ExecutionView {
    pub map: RuleMapView,
    pub opts: OptsView,
    pub vars: Map<Seq<char>, VarView>,
    /// The targets that were asked for.
    pub targets: Seq<Seq<char>>,
    /// The first of them that was not begun.
    pub next_target: usize,
    /// The visits under way, the innermost last.
    pub stack: Seq<VisitView>,
    pub awaiting: Await,
}

/// An execution after a step: its state, the request to the caller, and the
/// log entries that the step wrote.
pub struct Step {
    pub state: ExecutionView,
    pub action: ActionView,
    pub logged: Seq<Seq<char>>,
}

/// Index of the first character of `line` at or after `i` that is not one of
/// the modifiers `@`, `-` and `+`.
pub open spec fn modifiers_end(line: Seq<char>, i: int) -> int
    decreases line.len() - i,
{
    if 0 <= i < line.len() && (line[i] == '@' || line[i] == '-' || line[i] == '+') {
        modifiers_end(line, i + 1)
    } else {
        i
    }
}

/// Whether the recipe line `line` carries the modifier `c`: the modifiers of
/// a line are the characters `@`, `-` and `+` that stand, in any order,
/// between the line's leading whitespace and its first other character.
pub open spec fn has_modifier(line: Seq<char>, c: char) -> bool {
    let from = skip_spaces(line, 0);
    exists|k: int| from <= k < modifiers_end(line, from) && line[k] == c
}

/// The time of a file pinned as very new, where the time now is `now`.
pub open spec fn very_new(now: u64) -> u64 {
    if now <= u64::MAX - YEAR {
        (now + YEAR) as u64
    } else {
        u64::MAX
    }
}

/// The rules of `m` with the indices `ix`, in that order.
pub open spec fn rules_at(m: RuleMapView, ix: Seq<usize>) -> Seq<RuleView> {
    Seq::new(ix.len(), |i: int| m.rules[ix[i] as int])
}

/// The message that a target is up to date; `old` tells that it is so as one
/// of the files pinned as very old.
pub open spec fn up_to_date(target: Seq<char>, old: bool) -> Seq<char> {
    if old {
        "Target '"@ + target + "' is up to date (old)."@
    } else {
        "Target '"@ + target + "' is up to date."@
    }
}

/// The log entry for a message about a target.
pub open spec fn notice(msg: Seq<char>) -> Seq<char> {
    log_entry(INFO@, msg, Some(nowhere()))
}

/// The error at no place.
pub open spec fn failure(msg: Seq<char>) -> MakeErrorView {
    MakeErrorView { msg, context: nowhere() }
}

/// The step that fails with `error`.
pub open spec fn fail(st: ExecutionView, error: MakeErrorView) -> Step {
    Step {
        state: ExecutionView { awaiting: Await::Over, ..st },
        action: ActionView::Failed(error),
        logged: Seq::empty(),
    }
}

/// The step to `state` that asks for nothing.
pub open spec fn proceed(state: ExecutionView) -> Step {
    Step {
        state: ExecutionView { awaiting: Await::Go, ..state },
        action: ActionView::Proceed,
        logged: Seq::empty(),
    }
}

/// The visit of `target` before its first step.
pub open spec fn fresh_visit(st: ExecutionView, target: Seq<char>) -> VisitView {
    VisitView {
        target,
        rules: rules_at(st.map, st.map.by_target[target]),
        target_mtime: None,
        rule_pos: 0,
        prereq_pos: 0,
        line_pos: 0,
        echoed: false,
        should: st.opts.always_make,
        executed: false,
        phase: Phase::Enter,
    }
}

/// The step that begins to bring `target` up to date: a file pinned as very
/// old is up to date, which is logged; a target without rules is an error;
/// else a visit of the target begins.
pub open spec fn begin(st: ExecutionView, target: Seq<char>) -> Step {
    if st.opts.old_file.contains(target) {
        Step { logged: seq![notice(up_to_date(target, true))], ..proceed(st) }
    } else if !st.map.by_target.contains_key(target) {
        fail(st, failure("No rule to make target '"@ + target + "'."@))
    } else {
        proceed(ExecutionView { stack: st.stack.push(fresh_visit(st, target)), ..st })
    }
}

/// The state in which the innermost visit is `visit`.
pub open spec fn with_top(st: ExecutionView, visit: VisitView) -> ExecutionView {
    ExecutionView { stack: st.stack.drop_last().push(visit), ..st }
}

/// The step that asks when `name` was modified: by the clock for a file
/// pinned as very new, else by the file itself.
pub open spec fn ask(st: ExecutionView, name: Seq<char>, for_target: bool) -> Step {
    if st.opts.new_file.contains(name) {
        Step {
            state: ExecutionView {
                awaiting: if for_target {
                    Await::TargetClock
                } else {
                    Await::PrereqClock
                },
                ..st
            },
            action: ActionView::Clock,
            logged: Seq::empty(),
        }
    } else {
        Step {
            state: ExecutionView {
                awaiting: if for_target {
                    Await::TargetMtime
                } else {
                    Await::PrereqMtime
                },
                ..st
            },
            action: ActionView::Stat(name),
            logged: Seq::empty(),
        }
    }
}

/// The step that takes `mtime` as the time the target of the innermost visit
/// was modified.
pub open spec fn target_seen(st: ExecutionView, mtime: Option<u64>) -> Step {
    let top = st.stack.last();
    proceed(with_top(st, VisitView { target_mtime: mtime, phase: Phase::Prereqs, ..top }))
}

/// The step that takes `mtime` as the time the prerequisite at hand was
/// modified: a missing one is begun, and the recipe has to run; one newer
/// than the target makes the recipe run too.
pub open spec fn prereq_seen(st: ExecutionView, mtime: Option<u64>) -> Step {
    let top = st.stack.last();
    let name = top.rules[top.rule_pos as int].prerequisites[top.prereq_pos as int];
    let next = (top.prereq_pos + 1) as usize;
    match mtime {
        None => begin(with_top(st, VisitView { should: true, prereq_pos: next, ..top }), name),
        Some(p) => {
            let newer = top.target_mtime is Some && p > top.target_mtime->Some_0;
            proceed(with_top(st, VisitView { should: top.should || newer, prereq_pos: next, ..top }))
        },
    }
}

/// The visit `top` turned to its next rule.
pub open spec fn next_rule(st: ExecutionView, top: VisitView) -> VisitView {
    VisitView {
        rule_pos: (top.rule_pos + 1) as usize,
        prereq_pos: 0,
        line_pos: 0,
        echoed: false,
        should: st.opts.always_make,
        phase: Phase::Prereqs,
        ..top
    }
}

/// The step of a visit that looks at prerequisites.
pub open spec fn prereq_step(st: ExecutionView) -> Step {
    let top = st.stack.last();
    if top.rule_pos >= top.rules.len() {
        Step {
            logged: if top.executed {
                Seq::empty()
            } else {
                seq![notice(up_to_date(top.target, false))]
            },
            ..proceed(ExecutionView { stack: st.stack.drop_last(), ..st })
        }
    } else {
        let rule = top.rules[top.rule_pos as int];
        if top.prereq_pos < rule.prerequisites.len() {
            let name = rule.prerequisites[top.prereq_pos as int];
            if st.opts.always_make {
                begin(
                    with_top(st, VisitView { prereq_pos: (top.prereq_pos + 1) as usize, ..top }),
                    name,
                )
            } else if st.opts.old_file.contains(name) {
                prereq_seen(st, Some(EPOCH))
            } else {
                ask(st, name, false)
            }
        } else if top.target_mtime is None || top.should {
            proceed(
                with_top(
                    st,
                    VisitView {
                        phase: Phase::Lines,
                        line_pos: 0,
                        echoed: false,
                        executed: true,
                        ..top
                    },
                ),
            )
        } else {
            proceed(with_top(st, next_rule(st, top)))
        }
    }
}

/// The visit `top` turned to its next recipe line.
pub open spec fn next_line(top: VisitView) -> VisitView {
    VisitView { line_pos: (top.line_pos + 1) as usize, echoed: false, ..top }
}

/// What is to be done for the recipe line `line_pos` of `rule`, or none where
/// the recipe has no such line: the line is printed, unless it was (`echoed`)
/// or it carries `@` and lines are run; then it is run, unless lines are only
/// printed and it does not carry `+`, in which case nothing is to be done.
pub open spec fn recipe_action(
    rule: RuleView,
    opts: OptsView,
    vars: Map<Seq<char>, VarView>,
    line_pos: usize,
    echoed: bool,
) -> Option<ActionView> {
    if line_pos >= rule.recipe.len() {
        None
    } else {
        let line = rule.recipe[line_pos as int];
        if !echoed && (!has_modifier(line, '@') || opts.just_print) {
            Some(ActionView::Echo(line))
        } else if opts.just_print && !has_modifier(line, '+') {
            Some(ActionView::Proceed)
        } else {
            Some(
                ActionView::Spawn {
                    shell: lookup(vars, "SHELL"@).value,
                    flags: words(lookup(vars, ".SHELLFLAGS"@).value),
                    line,
                },
            )
        }
    }
}

/// The error, if any, of the recipe line `line_pos` of `rule` that ended with
/// `code`: a code other than 0, or none, is an error at the rule's place,
/// unless the line carries `-` or errors are ignored.
pub open spec fn exit_error(rule: RuleView, opts: OptsView, line_pos: usize, code: Option<i32>) -> Option<
    MakeErrorView,
> {
    let line = rule.recipe[line_pos as int];
    if code == Some(0i32) || has_modifier(line, '-') || opts.ignore_errors {
        None
    } else {
        let msg = match code {
            Some(c) => "Failed with code "@ + signed_decimal(c as int) + "."@,
            None => "Killed."@,
        };
        Some(MakeErrorView { msg, context: rule.context })
    }
}

/// The step of a visit that works through a recipe.
pub open spec fn line_step(st: ExecutionView) -> Step {
    let top = st.stack.last();
    if top.rule_pos >= top.rules.len() {
        proceed(with_top(st, VisitView { phase: Phase::Prereqs, ..top }))
    } else {
        let rule = top.rules[top.rule_pos as int];
        match recipe_action(rule, st.opts, st.vars, top.line_pos, top.echoed) {
            None => proceed(with_top(st, next_rule(st, top))),
            Some(ActionView::Echo(line)) => Step {
                state: with_top(
                    ExecutionView { awaiting: Await::Go, ..st },
                    VisitView { echoed: true, ..top },
                ),
                action: ActionView::Echo(line),
                logged: Seq::empty(),
            },
            Some(ActionView::Proceed) => proceed(with_top(st, next_line(top))),
            Some(action) => Step {
                state: ExecutionView { awaiting: Await::Exit, ..st },
                action,
                logged: Seq::empty(),
            },
        }
    }
}

/// Whether the visit `top` has a recipe line at hand.
pub open spec fn at_line(top: VisitView) -> bool {
    top.rule_pos < top.rules.len() && top.line_pos < top.rules[top.rule_pos as int].recipe.len()
}

/// The step that takes `code` as the way the recipe line at hand ended.
pub open spec fn exit_step(st: ExecutionView, code: Option<i32>) -> Step {
    let top = st.stack.last();
    match exit_error(top.rules[top.rule_pos as int], st.opts, top.line_pos, code) {
        None => proceed(with_top(st, next_line(top))),
        Some(error) => fail(st, error),
    }
}

/// The step for an answer that the execution did not wait for.
pub open spec fn reject(st: ExecutionView) -> Step {
    fail(st, failure("Unexpected event."@))
}

/// The step that begins the next of the targets asked for, or finishes.
pub open spec fn top_step(st: ExecutionView) -> Step {
    if st.next_target < st.targets.len() {
        begin(
            ExecutionView { next_target: (st.next_target + 1) as usize, ..st },
            st.targets[st.next_target as int],
        )
    } else {
        Step {
            state: ExecutionView { awaiting: Await::Over, ..st },
            action: ActionView::Finished,
            logged: Seq::empty(),
        }
    }
}

/// The step of the execution `st` on the answer `event`.
pub open spec fn step_of(st: ExecutionView, event: EventView) -> Step {
    match (st.awaiting, event) {
        (Await::Go, EventView::Go) => {
            if st.stack.len() == 0 {
                top_step(st)
            } else {
                let top = st.stack.last();
                match top.phase {
                    Phase::Enter => if st.opts.old_file.contains(top.target) {
                        target_seen(st, Some(EPOCH))
                    } else {
                        ask(st, top.target, true)
                    },
                    Phase::Prereqs => prereq_step(st),
                    Phase::Lines => line_step(st),
                }
            }
        },
        (Await::TargetMtime, EventView::Mtime(t)) => if st.stack.len() > 0 {
            target_seen(st, t)
        } else {
            reject(st)
        },
        (Await::TargetClock, EventView::Clock(now)) => if st.stack.len() > 0 {
            target_seen(st, Some(very_new(now)))
        } else {
            reject(st)
        },
        (Await::PrereqMtime, EventView::Mtime(t)) => if at_prereq(st) {
            prereq_seen(st, t)
        } else {
            reject(st)
        },
        (Await::PrereqClock, EventView::Clock(now)) => if at_prereq(st) {
            prereq_seen(st, Some(very_new(now)))
        } else {
            reject(st)
        },
        (Await::Exit, EventView::Exited(code)) => if st.stack.len() > 0 && at_line(
            st.stack.last(),
        ) {
            exit_step(st, code)
        } else {
            reject(st)
        },
        (Await::Exit, EventView::SpawnFailed(msg)) => if st.stack.len() > 0 && at_line(
            st.stack.last(),
        ) {
            fail(
                st,
                MakeErrorView {
                    msg,
                    context: st.stack.last().rules[st.stack.last().rule_pos as int].context,
                },
            )
        } else {
            reject(st)
        },
        _ => reject(st),
    }
}

/// Whether the innermost visit of `st` has a prerequisite at hand.
pub open spec fn at_prereq(st: ExecutionView) -> bool {
    st.stack.len() > 0 && {
        let top = st.stack.last();
        top.rule_pos < top.rules.len() && top.prereq_pos < top.rules[top.rule_pos
            as int].prerequisites.len()
    }
}

/// What an optional request is to the contracts.
pub open spec fn action_of(a: Option<Action>) -> Option<ActionView> {
    match a {
        Some(a) => Some(a@),
        None => None,
    }
}

/// Whether an execution that wrote the log `log` and answered `action` has
/// taken the step `step` from a state with the log `before`.
pub open spec fn took(
    before: Seq<Seq<char>>,
    state: ExecutionView,
    log: Seq<Seq<char>>,
    action: ActionView,
    step: Step,
) -> bool {
    &&& state == step.state
    &&& action == step.action
    &&& log == before + step.logged
}

} // verus!
