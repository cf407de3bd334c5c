//! What a dry run prints: where every target is taken as out of date and
//! recipe lines are only printed, an execution prints the recipe of every
//! rule it visits, once for each visit, after those of the prerequisites.

use crate::opts::OptsView;
use crate::rule_map::{RuleMapView, RuleView};
use crate::step::{
    fresh_visit, has_modifier, next_rule, rules_at, with_top, ActionView, Await, EventView,
    ExecutionView, Phase, VisitView,
};
use crate::trace::{answered, echoes, fits, lemma_answered_splits, lemma_run_splits, run, take};
use vstd::prelude::*;

verus! {

/// What a part of a dry run takes: how many steps, and which lines it prints.
pub struct Dry {
    pub steps: nat,
    pub lines: Seq<Seq<char>>,
}

/// A part of a dry run that takes `steps` steps and prints nothing.
pub open spec fn silent(steps: nat) -> Option<Dry> {
    Some(Dry { steps, lines: Seq::empty() })
}

/// One part of a dry run after another; none where either has none.
pub open spec fn then(first: Option<Dry>, second: Option<Dry>) -> Option<Dry> {
    match (first, second) {
        (Some(a), Some(b)) => Some(Dry { steps: a.steps + b.steps, lines: a.lines + b.lines }),
        _ => None,
    }
}

/// What bringing `target` up to date takes in a dry run, from the step that
/// begins it: nothing but that step for a file pinned as very old; else the
/// steps that learn when the target was modified, and then its rules. None
/// for a target without rules, and where visits are nested deeper than `fuel`.
pub open spec fn visit_dry(map: RuleMapView, opts: OptsView, target: Seq<char>, fuel: nat) -> Option<
    Dry,
>
    decreases fuel, 0int, 0int,
{
    if opts.old_file.contains(target) {
        silent(1)
    } else if !map.by_target.contains_key(target) || fuel == 0 {
        None
    } else {
        then(
            silent(3),
            rules_dry(map, opts, rules_at(map, map.by_target[target]), 0, (fuel - 1) as nat),
        )
    }
}

/// What the rules `rules` take in a dry run, from the rule `k` on: for each
/// rule its prerequisites, in order, and then its recipe, printed line by
/// line; in the end the step that ends the visit.
pub open spec fn rules_dry(
    map: RuleMapView,
    opts: OptsView,
    rules: Seq<RuleView>,
    k: int,
    fuel: nat,
) -> Option<Dry>
    decreases fuel, 2int, rules.len() - k,
{
    if k < 0 || k >= rules.len() {
        silent(1)
    } else {
        then(
            then(
                prereqs_dry(map, opts, rules[k].prerequisites, 0, fuel),
                Some(Dry { steps: 2 + 2 * rules[k].recipe.len(), lines: rules[k].recipe }),
            ),
            rules_dry(map, opts, rules, k + 1, fuel),
        )
    }
}

/// What the prerequisites `names` take in a dry run, from the one at `j` on:
/// each is brought up to date, in order.
pub open spec fn prereqs_dry(
    map: RuleMapView,
    opts: OptsView,
    names: Seq<Seq<char>>,
    j: int,
    fuel: nat,
) -> Option<Dry>
    decreases fuel, 1int, names.len() - j,
{
    if j < 0 || j >= names.len() {
        silent(0)
    } else {
        then(visit_dry(map, opts, names[j], fuel), prereqs_dry(map, opts, names, j + 1, fuel))
    }
}

/// Whether `rule` can be worked through in a dry run: no line of its recipe
/// carries `+`, and its prerequisites and recipe lines can be counted.
pub open spec fn calm_rule(rule: RuleView) -> bool {
    &&& rule.prerequisites.len() <= usize::MAX
    &&& rule.recipe.len() <= usize::MAX
    &&& forall|l: int| 0 <= l < rule.recipe.len() ==> !has_modifier(#[trigger] rule.recipe[l], '+')
}

/// Whether the rules `rules` can all be worked through in a dry run.
pub open spec fn calm_rules(rules: Seq<RuleView>) -> bool {
    &&& rules.len() <= usize::MAX
    &&& forall|k: int| 0 <= k < rules.len() ==> calm_rule(#[trigger] rules[k])
}

/// Whether `st` is a dry run: every target is taken as out of date, recipe
/// lines are only printed, and the rules of every target can be worked
/// through.
pub open spec fn dry(st: ExecutionView) -> bool {
    &&& st.opts.always_make
    &&& st.opts.just_print
    &&& forall|t: Seq<char>| #[trigger]
        st.map.by_target.contains_key(t) ==> calm_rules(rules_at(st.map, st.map.by_target[t]))
}

/// Whether the innermost visit of `st` is at the line `l` of the recipe of
/// its rule at hand, with nothing to wait for.
pub open spec fn at_recipe_line(st: ExecutionView, l: int) -> bool {
    &&& st.awaiting == Await::Go
    &&& st.stack.len() > 0
    &&& st.stack.last().phase == Phase::Lines
    &&& st.stack.last().rule_pos < st.stack.last().rules.len()
    &&& calm_rule(st.stack.last().rules[st.stack.last().rule_pos as int])
    &&& st.stack.last().line_pos == l
    &&& 0 <= l <= st.stack.last().rules[st.stack.last().rule_pos as int].recipe.len()
    &&& !st.stack.last().echoed
}

/// Where lines are only printed, the step at a recipe line that was not
/// printed asks to print it.
proof fn lemma_step_prints(st: ExecutionView, l: int)
    requires
        st.opts.just_print,
        at_recipe_line(st, l),
        l < st.stack.last().rules[st.stack.last().rule_pos as int].recipe.len(),
    ensures
        take(st, EventView::Go).state == with_top(
            st,
            VisitView { echoed: true, ..st.stack.last() },
        ),
        take(st, EventView::Go).action == ActionView::Echo(
            st.stack.last().rules[st.stack.last().rule_pos as int].recipe[l],
        ),
{
    reveal(take);
}

/// Where lines are only printed, the step at a recipe line that was printed
/// and does not carry `+` turns to the next line.
proof fn lemma_step_passes(st: ExecutionView, l: int)
    requires
        st.opts.just_print,
        at_recipe_line(
            ExecutionView {
                stack: st.stack.drop_last().push(
                    VisitView { echoed: false, ..st.stack.last() },
                ),
                ..st
            },
            l,
        ),
        st.stack.len() > 0,
        st.stack.last().echoed,
        l < st.stack.last().rules[st.stack.last().rule_pos as int].recipe.len(),
    ensures
        take(st, EventView::Go).state == with_top(
            st,
            VisitView { line_pos: (l + 1) as usize, echoed: false, ..st.stack.last() },
        ),
        !(take(st, EventView::Go).action is Echo),
{
    reveal(take);
    let top = st.stack.last();
    let plain = VisitView { echoed: false, ..top };
    assert(st.stack.drop_last().push(plain).last() == plain);
    let rule = top.rules[top.rule_pos as int];
    assert(!has_modifier(rule.recipe[l], '+'));
}

/// A dry run works through the rest of a recipe in two steps for each line,
/// and prints each of these lines once, in order.
pub proof fn lemma_recipe_is_printed(st: ExecutionView, events: Seq<EventView>, from: int, l: int)
    requires
        st.opts.just_print,
        at_recipe_line(st, l),
        answered(
            st,
            events,
            from,
            (2 * (st.stack.last().rules[st.stack.last().rule_pos as int].recipe.len() - l)) as nat,
        ),
    ensures
        ({
            let top = st.stack.last();
            let recipe = top.rules[top.rule_pos as int].recipe;
            let n = (2 * (recipe.len() - l)) as nat;
            &&& run(st, events, from, n) == with_top(
                st,
                VisitView { line_pos: recipe.len() as usize, ..top },
            )
            &&& echoes(st, events, from, n) == recipe.subrange(l, recipe.len() as int)
        }),
    decreases st.stack.last().rules[st.stack.last().rule_pos as int].recipe.len() - l,
{
    let top = st.stack.last();
    let recipe = top.rules[top.rule_pos as int].recipe;
    let n = (2 * (recipe.len() - l)) as nat;
    if l == recipe.len() {
        assert(st.stack.drop_last().push(top) =~= st.stack);
        assert(recipe.subrange(l, recipe.len() as int) =~= Seq::<Seq<char>>::empty());
    } else {
        let line = recipe[l];
        lemma_answered_splits(st, events, from, 2, (n - 2) as nat);
        assert(fits(run(st, events, from, 0), events[from + 0]));
        lemma_step_prints(st, l);
        let printed = VisitView { echoed: true, ..top };
        let s1 = with_top(st, printed);
        assert(s1.stack.last() == printed);
        assert(run(st, events, from, 1) == s1);
        assert(fits(run(st, events, from, 1), events[from + 1]));
        assert(s1.stack.drop_last() =~= st.stack.drop_last());
        assert(s1.stack.drop_last().push(VisitView { echoed: false, ..printed }) =~= st.stack);
        lemma_step_passes(s1, l);
        let passed = VisitView { line_pos: (l + 1) as usize, ..top };
        let s2 = with_top(st, passed);
        assert(with_top(s1, VisitView { line_pos: (l + 1) as usize, echoed: false, ..printed })
            == s2);
        assert(run(st, events, from, 2) == s2);
        assert(echoes(st, events, from, 1) == seq![line]) by {
            assert(echoes(st, events, from, 0) =~= Seq::<Seq<char>>::empty());
            assert(Seq::<Seq<char>>::empty().push(line) =~= seq![line]);
        }
        assert(echoes(st, events, from, 2) == seq![line]);
        assert(s2.stack.last() == passed);
        lemma_recipe_is_printed(s2, events, from + 2, l + 1);
        lemma_run_splits(st, events, from, 2, (n - 2) as nat);
        assert(s2.stack.drop_last() =~= st.stack.drop_last());
        assert(seq![line] + recipe.subrange(l + 1, recipe.len() as int) =~= recipe.subrange(
            l,
            recipe.len() as int,
        ));
    }
}

/// The execution `base` with the visits `below` under way and, innermost,
/// the visit `v`, and with nothing to wait for.
pub open spec fn framed(base: ExecutionView, below: Seq<VisitView>, v: VisitView) -> ExecutionView {
    ExecutionView { stack: below.push(v), awaiting: Await::Go, ..base }
}

/// The execution `base` with the visits `stack` under way and nothing to
/// wait for.
pub open spec fn resting(base: ExecutionView, stack: Seq<VisitView>) -> ExecutionView {
    ExecutionView { stack, awaiting: Await::Go, ..base }
}

/// One step of a run.
proof fn lemma_one_step(st: ExecutionView, events: Seq<EventView>, from: int)
    ensures
        run(st, events, from, 1) == take(st, events[from]).state,
        echoes(st, events, from, 1) == match take(st, events[from]).action {
            ActionView::Echo(line) => seq![line],
            _ => Seq::empty(),
        },
{
    assert(run(st, events, from, 0) == st);
    assert(echoes(st, events, from, 0) =~= Seq::<Seq<char>>::empty());
    match take(st, events[from]).action {
        ActionView::Echo(line) => {
            assert(Seq::<Seq<char>>::empty().push(line) =~= seq![line]);
        },
        _ => {},
    }
}

/// A visit that has yet to learn when its target was modified asks for it
/// and takes the answer, in two steps that print nothing.
proof fn lemma_enters(
    base: ExecutionView,
    below: Seq<VisitView>,
    v: VisitView,
    events: Seq<EventView>,
    from: int,
)
    requires
        v.phase == Phase::Enter,
        !base.opts.old_file.contains(v.target),
        answered(framed(base, below, v), events, from, 2),
    ensures
        run(framed(base, below, v), events, from, 2) == framed(
            base,
            below,
            VisitView {
                phase: Phase::Prereqs,
                target_mtime: run(framed(base, below, v), events, from, 2).stack.last().target_mtime,
                ..v
            },
        ),
        echoes(framed(base, below, v), events, from, 2) == Seq::<Seq<char>>::empty(),
{
    reveal(take);
    let st = framed(base, below, v);
    assert(st.stack.last() == v);
    assert(st.stack.drop_last() =~= below);
    assert(fits(run(st, events, from, 0), events[from + 0]));
    lemma_one_step(st, events, from);
    let s1 = run(st, events, from, 1);
    assert(s1.stack == st.stack);
    assert(fits(run(st, events, from, 1), events[from + 1]));
    lemma_one_step(s1, events, from + 1);
    lemma_run_splits(st, events, from, 1, 1);
    let s2 = run(st, events, from, 2);
    assert(s2 == take(s1, events[from + 1]).state);
    assert(s2.stack =~= below.push(
        VisitView { phase: Phase::Prereqs, target_mtime: s2.stack.last().target_mtime, ..v },
    ));
    assert(echoes(st, events, from, 2) =~= Seq::<Seq<char>>::empty());
}

/// Where every target is taken as out of date, a visit that has gone through
/// the prerequisites of a rule turns to the rule's recipe, in a step that
/// prints nothing.
proof fn lemma_turns_to_recipe(
    base: ExecutionView,
    below: Seq<VisitView>,
    v: VisitView,
    events: Seq<EventView>,
    from: int,
)
    requires
        v.phase == Phase::Prereqs,
        v.should,
        v.rule_pos < v.rules.len(),
        v.prereq_pos >= v.rules[v.rule_pos as int].prerequisites.len(),
        answered(framed(base, below, v), events, from, 1),
    ensures
        run(framed(base, below, v), events, from, 1) == framed(
            base,
            below,
            VisitView { phase: Phase::Lines, line_pos: 0, echoed: false, executed: true, ..v },
        ),
        echoes(framed(base, below, v), events, from, 1) == Seq::<Seq<char>>::empty(),
{
    reveal(take);
    let st = framed(base, below, v);
    assert(st.stack.last() == v);
    assert(st.stack.drop_last() =~= below);
    assert(fits(run(st, events, from, 0), events[from + 0]));
    lemma_one_step(st, events, from);
}

/// A visit that has worked through the recipe of a rule turns to its next
/// rule, in a step that prints nothing.
proof fn lemma_turns_to_next_rule(
    base: ExecutionView,
    below: Seq<VisitView>,
    v: VisitView,
    events: Seq<EventView>,
    from: int,
)
    requires
        v.phase == Phase::Lines,
        v.rule_pos < v.rules.len(),
        v.line_pos >= v.rules[v.rule_pos as int].recipe.len(),
        answered(framed(base, below, v), events, from, 1),
    ensures
        run(framed(base, below, v), events, from, 1) == framed(base, below, next_rule(base, v)),
        echoes(framed(base, below, v), events, from, 1) == Seq::<Seq<char>>::empty(),
{
    reveal(take);
    let st = framed(base, below, v);
    assert(st.stack.last() == v);
    assert(st.stack.drop_last() =~= below);
    assert(fits(run(st, events, from, 0), events[from + 0]));
    lemma_one_step(st, events, from);
    assert(next_rule(st, v) == next_rule(base, v));
}

/// A visit that has gone through all its rules ends, in a step that prints
/// nothing.
proof fn lemma_ends(
    base: ExecutionView,
    below: Seq<VisitView>,
    v: VisitView,
    events: Seq<EventView>,
    from: int,
)
    requires
        v.phase == Phase::Prereqs,
        v.rule_pos >= v.rules.len(),
        answered(framed(base, below, v), events, from, 1),
    ensures
        run(framed(base, below, v), events, from, 1) == resting(base, below),
        echoes(framed(base, below, v), events, from, 1) == Seq::<Seq<char>>::empty(),
{
    reveal(take);
    let st = framed(base, below, v);
    assert(st.stack.last() == v);
    assert(st.stack.drop_last() =~= below);
    assert(fits(run(st, events, from, 0), events[from + 0]));
    lemma_one_step(st, events, from);
}

/// Where every target is taken as out of date, a visit with a prerequisite
/// at hand begins to bring it up to date, in a step that prints nothing: a
/// file pinned as very old is passed over, and a target with rules gets a
/// visit of its own.
proof fn lemma_begins_prerequisite(
    base: ExecutionView,
    below: Seq<VisitView>,
    v: VisitView,
    events: Seq<EventView>,
    from: int,
)
    requires
        base.opts.always_make,
        v.phase == Phase::Prereqs,
        v.rule_pos < v.rules.len(),
        v.prereq_pos < v.rules[v.rule_pos as int].prerequisites.len(),
        base.opts.old_file.contains(v.rules[v.rule_pos as int].prerequisites[v.prereq_pos as int])
            || base.map.by_target.contains_key(
            v.rules[v.rule_pos as int].prerequisites[v.prereq_pos as int],
        ),
        answered(framed(base, below, v), events, from, 1),
    ensures
        ({
            let name = v.rules[v.rule_pos as int].prerequisites[v.prereq_pos as int];
            let moved = VisitView { prereq_pos: (v.prereq_pos + 1) as usize, ..v };
            run(framed(base, below, v), events, from, 1) == if base.opts.old_file.contains(name) {
                framed(base, below, moved)
            } else {
                framed(base, below.push(moved), fresh_visit(base, name))
            }
        }),
        echoes(framed(base, below, v), events, from, 1) == Seq::<Seq<char>>::empty(),
{
    reveal(take);
    let st = framed(base, below, v);
    assert(st.stack.last() == v);
    assert(st.stack.drop_last() =~= below);
    assert(fits(run(st, events, from, 0), events[from + 0]));
    lemma_one_step(st, events, from);
    let name = v.rules[v.rule_pos as int].prerequisites[v.prereq_pos as int];
    let moved = VisitView { prereq_pos: (v.prereq_pos + 1) as usize, ..v };
    let at = with_top(st, moved);
    assert(at.stack =~= below.push(moved));
    assert(fresh_visit(at, name) == fresh_visit(base, name));
}

/// Whether the visit `v` of a dry run looks at the prerequisites of one of
/// its rules, or is past its last rule, and has to run its recipes.
pub open spec fn at_rule(base: ExecutionView, v: VisitView) -> bool {
    &&& dry(base)
    &&& v.phase == Phase::Prereqs
    &&& v.should
    &&& v.rule_pos <= v.rules.len()
    &&& calm_rules(v.rules)
}

/// In a dry run a visit brings the prerequisites of its rule at hand up to
/// date, in order, from the one at hand on, and prints what that prints.
pub proof fn lemma_prereqs_dry(
    base: ExecutionView,
    below: Seq<VisitView>,
    v: VisitView,
    events: Seq<EventView>,
    from: int,
    fuel: nat,
)
    requires
        at_rule(base, v),
        v.rule_pos < v.rules.len(),
        v.prereq_pos <= v.rules[v.rule_pos as int].prerequisites.len(),
        prereqs_dry(
            base.map,
            base.opts,
            v.rules[v.rule_pos as int].prerequisites,
            v.prereq_pos as int,
            fuel,
        ) is Some,
        answered(
            framed(base, below, v),
            events,
            from,
            prereqs_dry(
                base.map,
                base.opts,
                v.rules[v.rule_pos as int].prerequisites,
                v.prereq_pos as int,
                fuel,
            )->Some_0.steps,
        ),
    ensures
        ({
            let names = v.rules[v.rule_pos as int].prerequisites;
            let d = prereqs_dry(base.map, base.opts, names, v.prereq_pos as int, fuel)->Some_0;
            &&& run(framed(base, below, v), events, from, d.steps) == framed(
                base,
                below,
                VisitView { prereq_pos: names.len() as usize, ..v },
            )
            &&& echoes(framed(base, below, v), events, from, d.steps) == d.lines
        }),
    decreases fuel, 1int, v.rules[v.rule_pos as int].prerequisites.len() - v.prereq_pos,
{
    let st = framed(base, below, v);
    let rule = v.rules[v.rule_pos as int];
    let names = rule.prerequisites;
    let j = v.prereq_pos as int;
    let d = prereqs_dry(base.map, base.opts, names, j, fuel)->Some_0;
    assert(calm_rule(rule));
    if j >= names.len() {
        assert(run(st, events, from, 0) == st);
        assert(echoes(st, events, from, 0) =~= Seq::<Seq<char>>::empty());
    } else {
        let name = names[j];
        let dv = visit_dry(base.map, base.opts, name, fuel)->Some_0;
        let dr = prereqs_dry(base.map, base.opts, names, j + 1, fuel)->Some_0;
        assert(d.steps == dv.steps + dr.steps);
        assert(d.lines == dv.lines + dr.lines);
        let moved = VisitView { prereq_pos: (j + 1) as usize, ..v };
        lemma_answered_splits(st, events, from, dv.steps, dr.steps);
        lemma_run_splits(st, events, from, dv.steps, dr.steps);
        if base.opts.old_file.contains(name) {
            assert(dv.steps == 1);
            lemma_begins_prerequisite(base, below, v, events, from);
            assert(dv.lines =~= Seq::<Seq<char>>::empty());
        } else {
            assert(base.map.by_target.contains_key(name));
            assert(fuel > 0);
            let child = fresh_visit(base, name);
            let rd = rules_dry(base.map, base.opts, child.rules, 0, (fuel - 1) as nat)->Some_0;
            assert(dv.steps == 3 + rd.steps);
            assert(dv.lines =~= rd.lines);
            lemma_answered_splits(st, events, from, 1, (2 + rd.steps) as nat);
            lemma_run_splits(st, events, from, 1, (2 + rd.steps) as nat);
            lemma_begins_prerequisite(base, below, v, events, from);
            let s1 = framed(base, below.push(moved), child);
            assert(run(st, events, from, 1) == s1);
            assert(calm_rules(child.rules));
            lemma_visit_dry(base, below.push(moved), child, events, from + 1, (fuel - 1) as nat);
            assert(resting(base, below.push(moved)) == framed(base, below, moved));
            assert(Seq::<Seq<char>>::empty() + rd.lines =~= rd.lines);
        }
        assert(run(st, events, from, dv.steps) == framed(base, below, moved));
        assert(echoes(st, events, from, dv.steps) == dv.lines);
        lemma_prereqs_dry(base, below, moved, events, from + dv.steps, fuel);
    }
}

/// In a dry run a visit that has yet to learn when its target was modified
/// goes through all its rules and ends, and prints what they print.
pub proof fn lemma_visit_dry(
    base: ExecutionView,
    below: Seq<VisitView>,
    v: VisitView,
    events: Seq<EventView>,
    from: int,
    fuel: nat,
)
    requires
        dry(base),
        v.phase == Phase::Enter,
        v.should,
        v.rule_pos == 0,
        v.prereq_pos == 0,
        calm_rules(v.rules),
        !base.opts.old_file.contains(v.target),
        rules_dry(base.map, base.opts, v.rules, 0, fuel) is Some,
        answered(
            framed(base, below, v),
            events,
            from,
            2 + rules_dry(base.map, base.opts, v.rules, 0, fuel)->Some_0.steps,
        ),
    ensures
        ({
            let d = rules_dry(base.map, base.opts, v.rules, 0, fuel)->Some_0;
            &&& run(framed(base, below, v), events, from, 2 + d.steps) == resting(base, below)
            &&& echoes(framed(base, below, v), events, from, 2 + d.steps) == d.lines
        }),
    decreases fuel, 3int, 0int,
{
    let st = framed(base, below, v);
    let d = rules_dry(base.map, base.opts, v.rules, 0, fuel)->Some_0;
    lemma_answered_splits(st, events, from, 2, d.steps);
    lemma_run_splits(st, events, from, 2, d.steps);
    lemma_enters(base, below, v, events, from);
    let seen = VisitView {
        phase: Phase::Prereqs,
        target_mtime: run(st, events, from, 2).stack.last().target_mtime,
        ..v
    };
    lemma_rules_dry(base, below, seen, events, from + 2, fuel);
    assert(Seq::<Seq<char>>::empty() + d.lines =~= d.lines);
}

/// In a dry run a visit goes through its rules from the one at hand on: for
/// each it brings the prerequisites up to date and then prints the recipe;
/// then it ends.
pub proof fn lemma_rules_dry(
    base: ExecutionView,
    below: Seq<VisitView>,
    v: VisitView,
    events: Seq<EventView>,
    from: int,
    fuel: nat,
)
    requires
        at_rule(base, v),
        v.prereq_pos == 0,
        rules_dry(base.map, base.opts, v.rules, v.rule_pos as int, fuel) is Some,
        answered(
            framed(base, below, v),
            events,
            from,
            rules_dry(base.map, base.opts, v.rules, v.rule_pos as int, fuel)->Some_0.steps,
        ),
    ensures
        ({
            let d = rules_dry(base.map, base.opts, v.rules, v.rule_pos as int, fuel)->Some_0;
            &&& run(framed(base, below, v), events, from, d.steps) == resting(base, below)
            &&& echoes(framed(base, below, v), events, from, d.steps) == d.lines
        }),
    decreases fuel, 2int, v.rules.len() - v.rule_pos,
{
    let st = framed(base, below, v);
    let k = v.rule_pos as int;
    let d = rules_dry(base.map, base.opts, v.rules, k, fuel)->Some_0;
    if k >= v.rules.len() {
        assert(d.steps == 1);
        lemma_ends(base, below, v, events, from);
        assert(d.lines =~= Seq::<Seq<char>>::empty());
    } else {
        let rule = v.rules[k];
        assert(calm_rule(rule));
        let names = rule.prerequisites;
        let count = rule.recipe.len();
        let dp = prereqs_dry(base.map, base.opts, names, 0, fuel)->Some_0;
        let dn = rules_dry(base.map, base.opts, v.rules, k + 1, fuel)->Some_0;
        assert(d.steps == dp.steps + (2 + 2 * count) + dn.steps);
        assert(d.lines == dp.lines + rule.recipe + dn.lines);
        // The prerequisites.
        let n1 = dp.steps;
        lemma_answered_splits(st, events, from, n1, (d.steps - n1) as nat);
        lemma_run_splits(st, events, from, n1, (d.steps - n1) as nat);
        lemma_prereqs_dry(base, below, v, events, from, fuel);
        let v1 = VisitView { prereq_pos: names.len() as usize, ..v };
        let s1 = framed(base, below, v1);
        // The turn to the recipe.
        let rest1 = (d.steps - n1) as nat;
        lemma_answered_splits(s1, events, from + n1, 1, (rest1 - 1) as nat);
        lemma_run_splits(s1, events, from + n1, 1, (rest1 - 1) as nat);
        lemma_turns_to_recipe(base, below, v1, events, from + n1);
        let v2 = VisitView { phase: Phase::Lines, line_pos: 0, echoed: false, executed: true, ..v1 };
        let s2 = framed(base, below, v2);
        // The recipe.
        let rest2 = (rest1 - 1) as nat;
        lemma_answered_splits(s2, events, from + n1 + 1, 2 * count, (rest2 - 2 * count) as nat);
        lemma_run_splits(s2, events, from + n1 + 1, 2 * count, (rest2 - 2 * count) as nat);
        assert(s2.stack.last() == v2);
        assert(s2.stack.drop_last() =~= below);
        lemma_recipe_is_printed(s2, events, from + n1 + 1, 0);
        let v3 = VisitView { line_pos: count as usize, ..v2 };
        let s3 = framed(base, below, v3);
        assert(with_top(s2, v3) == s3);
        assert(rule.recipe.subrange(0, count as int) =~= rule.recipe);
        // The turn to the next rule.
        let rest3 = (rest2 - 2 * count) as nat;
        lemma_answered_splits(s3, events, from + n1 + 1 + 2 * count, 1, (rest3 - 1) as nat);
        lemma_run_splits(s3, events, from + n1 + 1 + 2 * count, 1, (rest3 - 1) as nat);
        lemma_turns_to_next_rule(base, below, v3, events, from + n1 + 1 + 2 * count);
        let v4 = next_rule(base, v3);
        // The rules after this one.
        assert(v4.rules == v.rules);
        assert(v4.rule_pos == k + 1);
        lemma_rules_dry(base, below, v4, events, from + n1 + 2 + 2 * count, fuel);
        assert(dp.lines + (Seq::<Seq<char>>::empty() + (rule.recipe + (Seq::<Seq<char>>::empty()
            + dn.lines))) =~= dp.lines + rule.recipe + dn.lines);
    }
}

/// What bringing the targets `targets` up to date takes in a dry run, from
/// the target at `i` on: each is brought up to date, in order; in the end the
/// step that finishes.
pub open spec fn targets_dry(
    map: RuleMapView,
    opts: OptsView,
    targets: Seq<Seq<char>>,
    i: int,
    fuel: nat,
) -> Option<Dry>
    decreases targets.len() - i,
{
    if i < 0 || i >= targets.len() {
        silent(1)
    } else {
        then(visit_dry(map, opts, targets[i], fuel), targets_dry(map, opts, targets, i + 1, fuel))
    }
}

/// With no visit under way an execution begins the next of the targets asked
/// for, in a step that prints nothing.
proof fn lemma_begins_target(st: ExecutionView, events: Seq<EventView>, from: int)
    requires
        st.stack.len() == 0,
        st.awaiting == Await::Go,
        st.next_target < st.targets.len(),
        st.opts.old_file.contains(st.targets[st.next_target as int])
            || st.map.by_target.contains_key(st.targets[st.next_target as int]),
        answered(st, events, from, 1),
    ensures
        ({
            let name = st.targets[st.next_target as int];
            let moved = ExecutionView { next_target: (st.next_target + 1) as usize, ..st };
            run(st, events, from, 1) == if st.opts.old_file.contains(name) {
                moved
            } else {
                framed(moved, Seq::empty(), fresh_visit(moved, name))
            }
        }),
        echoes(st, events, from, 1) == Seq::<Seq<char>>::empty(),
{
    reveal(take);
    assert(st.stack =~= Seq::<VisitView>::empty());
    assert(fits(run(st, events, from, 0), events[from + 0]));
    lemma_one_step(st, events, from);
}

/// With no visit under way and no target left an execution finishes, in a
/// step that prints nothing.
proof fn lemma_finishes(st: ExecutionView, events: Seq<EventView>, from: int)
    requires
        st.stack.len() == 0,
        st.awaiting == Await::Go,
        st.next_target >= st.targets.len(),
        answered(st, events, from, 1),
    ensures
        run(st, events, from, 1) == (ExecutionView { awaiting: Await::Over, ..st }),
        take(st, events[from]).action == ActionView::Finished,
        echoes(st, events, from, 1) == Seq::<Seq<char>>::empty(),
{
    reveal(take);
    assert(fits(run(st, events, from, 0), events[from + 0]));
    lemma_one_step(st, events, from);
}

/// Where every target is taken as out of date and recipe lines are only
/// printed, an execution with no visit under way brings the targets that are
/// left up to date, in order, and finishes. While it does, it prints the
/// recipe of each rule that it visits once for each visit, after it has
/// brought the rule's prerequisites up to date; it prints nothing else.
pub proof fn lemma_dry_run_prints_every_recipe(
    st: ExecutionView,
    events: Seq<EventView>,
    from: int,
    fuel: nat,
)
    requires
        dry(st),
        st.stack.len() == 0,
        st.awaiting == Await::Go,
        st.next_target <= st.targets.len() <= usize::MAX,
        targets_dry(st.map, st.opts, st.targets, st.next_target as int, fuel) is Some,
        answered(
            st,
            events,
            from,
            targets_dry(st.map, st.opts, st.targets, st.next_target as int, fuel)->Some_0.steps,
        ),
    ensures
        ({
            let d = targets_dry(st.map, st.opts, st.targets, st.next_target as int, fuel)->Some_0;
            &&& echoes(st, events, from, d.steps) == d.lines
            &&& run(st, events, from, d.steps) == (ExecutionView {
                awaiting: Await::Over,
                next_target: st.targets.len() as usize,
                ..st
            })
        }),
    decreases st.targets.len() - st.next_target,
{
    let i = st.next_target as int;
    let d = targets_dry(st.map, st.opts, st.targets, i, fuel)->Some_0;
    if i >= st.targets.len() {
        lemma_finishes(st, events, from);
        assert(d.lines =~= Seq::<Seq<char>>::empty());
    } else {
        let name = st.targets[i];
        let dv = visit_dry(st.map, st.opts, name, fuel)->Some_0;
        let dr = targets_dry(st.map, st.opts, st.targets, i + 1, fuel)->Some_0;
        let moved = ExecutionView { next_target: (i + 1) as usize, ..st };
        lemma_answered_splits(st, events, from, dv.steps, dr.steps);
        lemma_run_splits(st, events, from, dv.steps, dr.steps);
        if st.opts.old_file.contains(name) {
            lemma_begins_target(st, events, from);
            assert(dv.lines =~= Seq::<Seq<char>>::empty());
        } else {
            assert(st.map.by_target.contains_key(name));
            let child = fresh_visit(moved, name);
            let rd = rules_dry(st.map, st.opts, child.rules, 0, (fuel - 1) as nat)->Some_0;
            lemma_answered_splits(st, events, from, 1, (2 + rd.steps) as nat);
            lemma_run_splits(st, events, from, 1, (2 + rd.steps) as nat);
            lemma_begins_target(st, events, from);
            assert(calm_rules(child.rules));
            assert(dry(moved));
            lemma_visit_dry(moved, Seq::empty(), child, events, from + 1, (fuel - 1) as nat);
            assert(st.stack =~= Seq::<VisitView>::empty());
            assert(resting(moved, Seq::empty()) == moved);
            assert(Seq::<Seq<char>>::empty() + rd.lines =~= rd.lines);
            assert(dv.lines =~= rd.lines);
        }
        assert(run(st, events, from, dv.steps) == moved);
        lemma_dry_run_prints_every_recipe(moved, events, from + dv.steps, fuel);
    }
}

} // verus!
