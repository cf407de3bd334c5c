//! What holds of the steps of an execution, and of runs of steps.

use crate::opts::OptsView;
use crate::rule_map::RuleView;
use crate::step::{
    at_prereq, has_modifier, recipe_action, rules_at, step_of, took, very_new, ActionView, Await,
    EventView, ExecutionView, Phase, Step, VisitView, EPOCH,
};
use crate::vars::VarView;
use vstd::prelude::*;

verus! {

/// What a step answers and where it leads is settled by the state and the
/// answer it takes: two executions that take the same step agree on the next
/// state, the request and the log.
pub proof fn lemma_step_is_determined(
    st: ExecutionView,
    event: EventView,
    log: Seq<Seq<char>>,
    first: (ExecutionView, Seq<Seq<char>>, ActionView),
    second: (ExecutionView, Seq<Seq<char>>, ActionView),
)
    requires
        took(log, first.0, first.1, first.2, step_of(st, event)),
        took(log, second.0, second.1, second.2, step_of(st, event)),
    ensures
        first == second,
{
}

/// Where recipe lines are only printed, a step asks to run a line only where
/// the line carries `+`.
pub proof fn lemma_just_print_runs_only_forced_lines(st: ExecutionView, event: EventView)
    requires
        st.opts.just_print,
    ensures
        match step_of(st, event).action {
            ActionView::Spawn { line, .. } => has_modifier(line, '+'),
            _ => true,
        },
{
}

/// Where recipe lines are only printed, the line at hand of a rule is printed
/// as long as it was not, and not again once it was.
pub proof fn lemma_just_print_prints_each_line_once(
    rule: RuleView,
    opts: OptsView,
    vars: Map<Seq<char>, VarView>,
    line_pos: usize,
)
    requires
        opts.just_print,
        line_pos < rule.recipe.len(),
    ensures
        recipe_action(rule, opts, vars, line_pos, false) == Some(
            ActionView::Echo(rule.recipe[line_pos as int]),
        ),
        !(recipe_action(rule, opts, vars, line_pos, true) matches Some(ActionView::Echo(_))),
{
}

/// Whether every visit under way has to run the recipes of its target.
pub open spec fn eager(st: ExecutionView) -> bool {
    forall|i: int| 0 <= i < st.stack.len() ==> (#[trigger] st.stack[i]).should
}

/// Where every target is taken as out of date, every visit has to run its
/// recipes: that stays so from step to step, and a visit that has gone
/// through the prerequisites of a rule turns to the rule's recipe.
pub proof fn lemma_always_make_runs_every_recipe(st: ExecutionView, event: EventView)
    requires
        st.opts.always_make,
        eager(st),
    ensures
        eager(step_of(st, event).state),
        st.awaiting == Await::Go && event == EventView::Go && st.stack.len() > 0
            && st.stack.last().phase == Phase::Prereqs && st.stack.last().rule_pos
            < st.stack.last().rules.len() && st.stack.last().prereq_pos
            >= st.stack.last().rules[st.stack.last().rule_pos as int].prerequisites.len()
            ==> step_of(st, event).state.stack.len() == st.stack.len() && step_of(
            st,
            event,
        ).state.stack.last().phase == Phase::Lines,
{
    let next = step_of(st, event).state;
    assert forall|i: int| 0 <= i < next.stack.len() implies (#[trigger] next.stack[i]).should by {
        if i < st.stack.len() - 1 {
            assert(st.stack[i].should);
            assert(next.stack[i] == st.stack[i]);
        } else if i < st.stack.len() {
            assert(st.stack[i].should);
        }
    }
}

/// When the file `name` was modified, going by `files`: none for a file that
/// is missing.
pub open spec fn mtime_of(files: Map<Seq<char>, u64>, name: Seq<char>) -> Option<u64> {
    if files.contains_key(name) {
        Some(files[name])
    } else {
        None
    }
}

/// When `name` was modified, as an execution takes it: at the epoch for a
/// file pinned as very old, a year from `now` for one pinned as very new,
/// else as `files` tell.
pub open spec fn seen(opts: OptsView, files: Map<Seq<char>, u64>, now: u64, name: Seq<char>) -> Option<
    u64,
> {
    if opts.old_file.contains(name) {
        Some(EPOCH)
    } else if opts.new_file.contains(name) {
        Some(very_new(now))
    } else {
        mtime_of(files, name)
    }
}

/// Whether the prerequisites of `rule` all exist and none is newer than
/// `target_time`.
pub open spec fn rule_settled(
    opts: OptsView,
    files: Map<Seq<char>, u64>,
    now: u64,
    rule: RuleView,
    target_time: u64,
) -> bool {
    forall|j: int|
        0 <= j < rule.prerequisites.len() ==> match seen(
            opts,
            files,
            now,
            #[trigger] rule.prerequisites[j],
        ) {
            Some(p) => p <= target_time,
            None => false,
        }
}

/// Whether `target`, if it has rules and is not pinned as very old, exists
/// and is at least as new as every prerequisite of each of its rules.
pub open spec fn target_settled(
    st: ExecutionView,
    files: Map<Seq<char>, u64>,
    now: u64,
    target: Seq<char>,
) -> bool {
    st.map.by_target.contains_key(target) && !st.opts.old_file.contains(target) ==> match seen(
        st.opts,
        files,
        now,
        target,
    ) {
        Some(t) => forall|k: int|
            0 <= k < st.map.by_target[target].len() ==> rule_settled(
                st.opts,
                files,
                now,
                #[trigger] rules_at(st.map, st.map.by_target[target])[k],
                t,
            ),
        None => false,
    }
}

/// Whether the build tree is complete for the targets asked for.
pub open spec fn settled(st: ExecutionView, files: Map<Seq<char>, u64>, now: u64) -> bool {
    forall|i: int| 0 <= i < st.targets.len() ==> target_settled(st, files, now, #[trigger] st.targets[i])
}

/// Whether `event` is the answer that the files `files` and the clock `now`
/// give to what `st` waits for.
pub open spec fn answers(
    st: ExecutionView,
    event: EventView,
    files: Map<Seq<char>, u64>,
    now: u64,
) -> bool {
    match st.awaiting {
        Await::Go => event == EventView::Go,
        Await::TargetMtime => st.stack.len() > 0 ==> event == EventView::Mtime(
            mtime_of(files, st.stack.last().target),
        ),
        Await::PrereqMtime => at_prereq(st) ==> event == EventView::Mtime(
            mtime_of(
                files,
                st.stack.last().rules[st.stack.last().rule_pos
                    as int].prerequisites[st.stack.last().prereq_pos as int],
            ),
        ),
        Await::TargetClock => event == EventView::Clock(now),
        Await::PrereqClock => event == EventView::Clock(now),
        Await::Exit => true,
        Await::Over => true,
    }
}

/// Whether the visit `f` has found nothing to run: it is a visit of one of
/// the targets asked for, it has no reason to run a recipe, and it runs none.
pub open spec fn visit_quiet(
    st: ExecutionView,
    files: Map<Seq<char>, u64>,
    now: u64,
    f: VisitView,
) -> bool {
    &&& st.targets.contains(f.target)
    &&& st.map.by_target.contains_key(f.target)
    &&& !st.opts.old_file.contains(f.target)
    &&& f.rules == rules_at(st.map, st.map.by_target[f.target])
    &&& !f.should
    &&& f.phase != Phase::Lines
    &&& f.phase == Phase::Prereqs ==> f.target_mtime == seen(st.opts, files, now, f.target)
}

/// Whether the execution `st` has found nothing to run so far, and waits for
/// what it asked for.
pub open spec fn quiet(st: ExecutionView, files: Map<Seq<char>, u64>, now: u64) -> bool {
    &&& forall|i: int|
        0 <= i < st.stack.len() ==> visit_quiet(st, files, now, #[trigger] st.stack[i])
    &&& st.awaiting != Await::Exit
    &&& st.awaiting == Await::TargetMtime ==> st.stack.len() > 0 && st.stack.last().phase
        == Phase::Enter && !st.opts.new_file.contains(st.stack.last().target)
    &&& st.awaiting == Await::TargetClock ==> st.stack.len() > 0 && st.stack.last().phase
        == Phase::Enter && st.opts.new_file.contains(st.stack.last().target)
    &&& st.awaiting == Await::PrereqMtime ==> at_prereq(st) && st.stack.last().phase
        == Phase::Prereqs && seen(st.opts, files, now, prereq_at_hand(st)) == mtime_of(
        files,
        prereq_at_hand(st),
    )
    &&& st.awaiting == Await::PrereqClock ==> at_prereq(st) && st.stack.last().phase
        == Phase::Prereqs && seen(st.opts, files, now, prereq_at_hand(st)) == Some(very_new(now))
}

/// The prerequisite at hand of the innermost visit.
pub open spec fn prereq_at_hand(st: ExecutionView) -> Seq<char> {
    let top = st.stack.last();
    top.rules[top.rule_pos as int].prerequisites[top.prereq_pos as int]
}

/// On a complete build tree, where no file changes, nothing is run: unless
/// every target is taken as out of date, an execution that has found nothing
/// to run so far, and gets the answers that the files and the clock give, asks
/// neither to print nor to run a recipe line, and has still found nothing to
/// run after the step. An execution is in that state when it begins.
pub proof fn lemma_complete_tree_runs_nothing(
    st: ExecutionView,
    event: EventView,
    files: Map<Seq<char>, u64>,
    now: u64,
)
    requires
        !st.opts.always_make,
        settled(st, files, now),
        quiet(st, files, now),
        answers(st, event, files, now),
    ensures
        quiet(step_of(st, event).state, files, now),
        settled(step_of(st, event).state, files, now),
        !(step_of(st, event).action is Echo),
        !(step_of(st, event).action is Spawn),
{
    let step = step_of(st, event);
    let next = step.state;
    assert(next.targets == st.targets && next.map == st.map && next.opts == st.opts);
    if st.stack.len() > 0 {
        let top = st.stack.last();
        assert(visit_quiet(st, files, now, st.stack[st.stack.len() - 1]));
        assert(st.targets.contains(top.target));
        let i = choose|i: int| 0 <= i < st.targets.len() && st.targets[i] == top.target;
        assert(target_settled(st, files, now, st.targets[i]));
        if top.phase == Phase::Prereqs && top.rule_pos < top.rules.len() {
            let rule = top.rules[top.rule_pos as int];
            assert(rule == rules_at(st.map, st.map.by_target[top.target])[top.rule_pos as int]);
            let t = seen(st.opts, files, now, top.target)->Some_0;
            assert(rule_settled(st.opts, files, now, rule, t));
            if top.prereq_pos < rule.prerequisites.len() {
                let name = rule.prerequisites[top.prereq_pos as int];
                assert(seen(st.opts, files, now, name) is Some);
            }
        }
    }
    assert forall|k: int| 0 <= k < next.stack.len() implies visit_quiet(
        next,
        files,
        now,
        #[trigger] next.stack[k],
    ) by {
        if k < st.stack.len() - 1 {
            assert(visit_quiet(st, files, now, st.stack[k]));
            assert(next.stack[k] == st.stack[k]);
        } else if k >= st.stack.len() {
            assert(st.stack.len() == 0);
            assert(st.targets[st.next_target as int] == next.stack[k].target);
        }
    }
    assert forall|i: int| 0 <= i < next.targets.len() implies target_settled(
        next,
        files,
        now,
        #[trigger] next.targets[i],
    ) by {
        assert(target_settled(st, files, now, st.targets[i]));
    }
}

/// An execution that begins has found nothing to run.
pub proof fn lemma_begins_quiet(st: ExecutionView, files: Map<Seq<char>, u64>, now: u64)
    requires
        st.stack.len() == 0,
        st.awaiting == Await::Go,
    ensures
        quiet(st, files, now),
{
}

/// Whether `event` is an answer of the kind that `st` waits for.
pub open spec fn fits(st: ExecutionView, event: EventView) -> bool {
    match st.awaiting {
        Await::Go => event == EventView::Go,
        Await::TargetMtime => event is Mtime,
        Await::PrereqMtime => event is Mtime,
        Await::TargetClock => event is Clock,
        Await::PrereqClock => event is Clock,
        Await::Exit => event is Exited || event is SpawnFailed,
        Await::Over => false,
    }
}

/// The step of the execution `st` on the answer `event`.
#[verifier::opaque]
pub open spec fn take(st: ExecutionView, event: EventView) -> Step {
    step_of(st, event)
}

/// The state of the execution `st` after it took the `n` events of `events`
/// from the index `from` on.
pub open spec fn run(st: ExecutionView, events: Seq<EventView>, from: int, n: nat) -> ExecutionView
    decreases n,
{
    if n == 0 {
        st
    } else {
        take(run(st, events, from, (n - 1) as nat), events[from + n - 1]).state
    }
}

/// The recipe lines that the execution `st` asks to print while it takes the
/// `n` events of `events` from the index `from` on, in order.
pub open spec fn echoes(st: ExecutionView, events: Seq<EventView>, from: int, n: nat) -> Seq<
    Seq<char>,
>
    decreases n,
{
    if n == 0 {
        Seq::empty()
    } else {
        let before = echoes(st, events, from, (n - 1) as nat);
        match take(run(st, events, from, (n - 1) as nat), events[from + n - 1]).action {
            ActionView::Echo(line) => before.push(line),
            _ => before,
        }
    }
}

/// Whether each of the `n` events of `events` from the index `from` on is of
/// the kind that the execution waits for when it takes it.
pub open spec fn answered(st: ExecutionView, events: Seq<EventView>, from: int, n: nat) -> bool {
    &&& 0 <= from
    &&& from + n <= events.len()
    &&& forall|k: nat| k < n ==> fits(#[trigger] run(st, events, from, k), events[from + k])
}

/// Taking events in two runs, one after the other, is taking them in one.
pub proof fn lemma_run_splits(st: ExecutionView, events: Seq<EventView>, from: int, a: nat, b: nat)
    ensures
        run(st, events, from, a + b) == run(run(st, events, from, a), events, from + a, b),
        echoes(st, events, from, a + b) == echoes(st, events, from, a) + echoes(
            run(st, events, from, a),
            events,
            from + a,
            b,
        ),
    decreases b,
{
    let mid = run(st, events, from, a);
    if b == 0 {
        assert(echoes(st, events, from, a) + Seq::<Seq<char>>::empty() == echoes(
            st,
            events,
            from,
            a,
        ));
    } else {
        lemma_run_splits(st, events, from, a, (b - 1) as nat);
        let first = echoes(st, events, from, a);
        let second = echoes(mid, events, from + a, (b - 1) as nat);
        match take(run(mid, events, from + a, (b - 1) as nat), events[from + a + b - 1]).action {
            ActionView::Echo(line) => {
                assert((first + second).push(line) == first + second.push(line));
            },
            _ => {},
        }
    }
}

/// The events of a run that is answered are answered in its second part too.
pub proof fn lemma_answered_splits(
    st: ExecutionView,
    events: Seq<EventView>,
    from: int,
    a: nat,
    b: nat,
)
    requires
        answered(st, events, from, a + b),
    ensures
        answered(st, events, from, a),
        answered(run(st, events, from, a), events, from + a, b),
{
    let mid = run(st, events, from, a);
    assert forall|k: nat| k < b implies fits(
        #[trigger] run(mid, events, from + a, k),
        events[from + a + k],
    ) by {
        lemma_run_splits(st, events, from, a, k);
        assert(fits(run(st, events, from, a + k), events[from + (a + k)]));
    }
}

/// The request with which the execution `st` answers the event `k` of
/// `events`, having taken those before it.
pub open spec fn request(st: ExecutionView, events: Seq<EventView>, k: int) -> ActionView {
    take(run(st, events, 0, k as nat), events[k]).action
}

/// Whether each of `events` is the answer that the files `files` and the
/// clock `now` give to what the execution waits for when it takes it.
pub open spec fn faithful(
    st: ExecutionView,
    events: Seq<EventView>,
    files: Map<Seq<char>, u64>,
    now: u64,
) -> bool {
    forall|k: int|
        0 <= k < events.len() ==> answers(
            #[trigger] run(st, events, 0, k as nat),
            events[k],
            files,
            now,
        )
}

/// On a complete build tree, where no file changes, an execution from its
/// beginning never asks to print or to run a recipe line, however long it is
/// run; unless every target is taken as out of date.
pub proof fn lemma_complete_tree_never_runs(
    st: ExecutionView,
    events: Seq<EventView>,
    files: Map<Seq<char>, u64>,
    now: u64,
    k: int,
)
    requires
        !st.opts.always_make,
        st.stack.len() == 0,
        st.awaiting == Await::Go,
        settled(st, files, now),
        faithful(st, events, files, now),
        0 <= k < events.len(),
    ensures
        !(request(st, events, k) is Echo),
        !(request(st, events, k) is Spawn),
{
    reveal(take);
    lemma_stays_quiet(st, events, files, now, k as nat);
    let at = run(st, events, 0, k as nat);
    assert(answers(at, events[k], files, now));
    lemma_complete_tree_runs_nothing(at, events[k], files, now);
}

proof fn lemma_stays_quiet(
    st: ExecutionView,
    events: Seq<EventView>,
    files: Map<Seq<char>, u64>,
    now: u64,
    n: nat,
)
    requires
        !st.opts.always_make,
        st.stack.len() == 0,
        st.awaiting == Await::Go,
        settled(st, files, now),
        faithful(st, events, files, now),
        n <= events.len(),
    ensures
        quiet(run(st, events, 0, n), files, now),
        settled(run(st, events, 0, n), files, now),
        run(st, events, 0, n).opts == st.opts,
    decreases n,
{
    reveal(take);
    if n > 0 {
        lemma_stays_quiet(st, events, files, now, (n - 1) as nat);
        let at = run(st, events, 0, (n - 1) as nat);
        assert(answers(at, events[n - 1], files, now));
        lemma_complete_tree_runs_nothing(at, events[n - 1], files, now);
    }
}

/// Where recipe lines are only printed, an execution never asks to run a
/// line that does not carry `+`, however long it is run.
pub proof fn lemma_just_print_never_runs(st: ExecutionView, events: Seq<EventView>, k: int)
    requires
        st.opts.just_print,
        0 <= k < events.len(),
    ensures
        match request(st, events, k) {
            ActionView::Spawn { line, .. } => has_modifier(line, '+'),
            _ => true,
        },
{
    reveal(take);
    lemma_opts_stay(st, events, k as nat);
    lemma_just_print_runs_only_forced_lines(run(st, events, 0, k as nat), events[k]);
}

/// No step changes the options, the variables or the rules.
pub proof fn lemma_opts_stay(st: ExecutionView, events: Seq<EventView>, n: nat)
    ensures
        run(st, events, 0, n).opts == st.opts,
        run(st, events, 0, n).vars == st.vars,
        run(st, events, 0, n).map == st.map,
        run(st, events, 0, n).targets == st.targets,
    decreases n,
{
    reveal(take);
    if n > 0 {
        lemma_opts_stay(st, events, (n - 1) as nat);
    }
}

} // verus!
