//! Rules, and the store that finds the rules of a target.

use crate::context::{Context, ContextView};
use crate::error::{MakeError, MakeErrorView};
use crate::logger::{log_entry, log_warn, Journal, Logger, WARN};
use crate::text::texts;
use vstd::hash_map::StringHashMap;
use vstd::prelude::*;

verus! {

/// A rule of a makefile: the targets it makes, what they are made from, the
/// command lines that make them, and where it was written.
#[derive(Debug)]
pub struct Rule {
    pub targets: Vec<String>,
    pub prerequisites: Vec<String>,
    pub recipe: Vec<String>,
    pub context: Context,
    pub double_colon: bool,
}

/// What a rule is to the contracts.
pub struct RuleView {
    pub targets: Seq<Seq<char>>,
    pub prerequisites: Seq<Seq<char>>,
    pub recipe: Seq<Seq<char>>,
    pub context: ContextView,
    pub double_colon: bool,
}

impl View for Rule {
    type V = RuleView;

    open spec fn view(&self) -> RuleView {
        RuleView {
            targets: texts(self.targets@),
            prerequisites: texts(self.prerequisites@),
            recipe: texts(self.recipe@),
            context: self.context@,
            double_colon: self.double_colon,
        }
    }
}

/// What a rule map is to the contracts: the rules in the order in which they
/// were inserted, and for each target the indices of its rules.
pub struct RuleMapView {
    pub rules: Seq<RuleView>,
    pub by_target: Map<Seq<char>, Seq<usize>>,
}

/// Whether the index of `m` is sound: each target has at least one rule, each
/// index names a stored rule that lists the target, the rules of one target
/// are all of one kind, and a target of the single-colon kind has one rule.
pub open spec fn consistent(m: RuleMapView) -> bool {
    forall|t: Seq<char>| #[trigger]
        m.by_target.contains_key(t) ==> {
            let ix = m.by_target[t];
            &&& ix.len() > 0
            &&& forall|i: int|
                0 <= i < ix.len() ==> {
                    &&& (#[trigger] ix[i]) < m.rules.len()
                    &&& m.rules[ix[i] as int].targets.contains(t)
                    &&& m.rules[ix[i] as int].double_colon == m.rules[ix[0] as int].double_colon
                }
            &&& !m.rules[ix[0] as int].double_colon ==> ix.len() == 1
        }
}

/// The message for a target that has rules of both kinds.
pub open spec fn conflict_message() -> Seq<char> {
    "Cannot define rules using ':' and '::' on the same target."@
}

/// The message for a further single-colon rule of a target.
pub open spec fn duplicate_message() -> Seq<char> {
    "Ignoring duplicate definition."@
}

/// The outcome of entering targets of a rule into the index.
pub struct Entered {
    /// The index afterwards.
    pub by_target: Map<Seq<char>, Seq<usize>>,
    /// How many targets were passed over as duplicates.
    pub ignored: nat,
    /// Whether a target that has rules of the other kind stopped the entering.
    pub conflict: bool,
}

/// The outcome of entering the first `n` targets of the rule `rules[index]`
/// into the index `start`, in order. A target without rules gets the rule as
/// its first. A target with rules of the other kind stops the entering. A
/// target with rules of the same kind gets the rule as a further one where
/// the kind is double-colon, and is passed over where it is single-colon.
pub open spec fn enter(
    rules: Seq<RuleView>,
    start: Map<Seq<char>, Seq<usize>>,
    index: usize,
    n: nat,
) -> Entered
    decreases n,
{
    let rule = rules[index as int];
    if n == 0 || n > rule.targets.len() {
        Entered { by_target: start, ignored: 0, conflict: false }
    } else {
        let prev = enter(rules, start, index, (n - 1) as nat);
        let t = rule.targets[n - 1];
        if prev.conflict {
            prev
        } else if !prev.by_target.contains_key(t) {
            Entered { by_target: prev.by_target.insert(t, seq![index]), ..prev }
        } else if rules[prev.by_target[t][0] as int].double_colon != rule.double_colon {
            Entered { conflict: true, ..prev }
        } else if rule.double_colon {
            Entered { by_target: prev.by_target.insert(t, prev.by_target[t].push(index)), ..prev }
        } else {
            Entered { ignored: prev.ignored + 1, ..prev }
        }
    }
}

/// `n` copies of `line`.
pub open spec fn repeated(line: Seq<char>, n: nat) -> Seq<Seq<char>> {
    Seq::new(n, |i: int| line)
}

/// What a stored index is to the contracts.
pub open spec fn index_view(m: Map<Seq<char>, Vec<usize>>) -> Map<Seq<char>, Seq<usize>> {
    m.map_values(|v: Vec<usize>| v@)
}

/// What stored rules are to the contracts.
pub open spec fn rules_view(rules: Seq<Rule>) -> Seq<RuleView> {
    rules.map_values(|r: Rule| r@)
}

/// The rules of a makefile, found by target.
pub struct RuleMap {
    rules: Vec<Rule>,
    by_target: StringHashMap<Vec<usize>>,
}

impl View for RuleMap {
    type V = RuleMapView;

    closed spec fn view(&self) -> RuleMapView {
        RuleMapView { rules: rules_view(self.rules@), by_target: index_view(self.by_target@) }
    }
}

/// A copy of `v`.
fn copy_indices(v: &Vec<usize>) -> (out: Vec<usize>)
    ensures
        out@ == v@,
{
    let mut out: Vec<usize> = Vec::new();
    let mut i: usize = 0;
    while i < v.len()
        invariant
            i <= v.len(),
            out@ == v@.take(i as int),
        decreases v.len() - i,
    {
        out.push(v[i]);
        i += 1;
        assert(v@.take(i as int) == v@.take(i - 1).push(v@[i - 1]));
    }
    assert(v@.take(v.len() as int) == v@);
    out
}

impl RuleMap {
    /// The index of a rule map is sound at all times.
    #[verifier::type_invariant]
    pub open spec fn wf(self) -> bool {
        consistent(self@)
    }

    /// A map without rules.
    pub fn new() -> (out: Self)
        ensures
            out@.rules.len() == 0,
            out@.by_target == Map::<Seq<char>, Seq<usize>>::empty(),
            consistent(out@),
    {
        let out = RuleMap { rules: Vec::new(), by_target: StringHashMap::new() };
        assert(index_view(out.by_target@) =~= Map::<Seq<char>, Seq<usize>>::empty());
        out
    }

    /// Stores `rule` and enters its targets into the index, in order.
    ///
    /// A target that has rules of the other kind is an error: the rule stays
    /// stored, and so do the entries of the targets before that one. Each
    /// further single-colon rule of a target is passed over with a warning.
    pub fn insert<L: Logger>(&mut self, rule: Rule, logger: &mut Journal<L>) -> (r: Result<(), MakeError>)
        ensures
            final(self)@.rules == old(self)@.rules.push(rule@),
            ({
                let e = enter(
                    final(self)@.rules,
                    old(self)@.by_target,
                    old(self)@.rules.len() as usize,
                    rule@.targets.len(),
                );
                &&& final(self)@.by_target == e.by_target
                &&& r is Err <==> e.conflict
                &&& r is Err ==> r->Err_0@ == (MakeErrorView {
                    msg: conflict_message(),
                    context: rule@.context,
                })
                &&& final(logger).lines() == old(logger).lines() + repeated(
                    log_entry(WARN@, duplicate_message(), Some(rule@.context)),
                    e.ignored,
                )
            }),
            consistent(final(self)@),
            final(logger).logger() == old(logger).logger(),
    {
        proof {
            use_type_invariant(&*self);
        }
        let mut by_target: StringHashMap<Vec<usize>> = StringHashMap::new();
        std::mem::swap(&mut by_target, &mut self.by_target);
        proof {
            assert(index_view(self.by_target@) =~= Map::<Seq<char>, Seq<usize>>::empty());
        }
        let mut rules: Vec<Rule> = Vec::new();
        std::mem::swap(&mut rules, &mut self.rules);
        let index = rules.len();
        let ghost start = index_view(by_target@);
        let ghost before = rules_view(rules@);
        let ghost line = log_entry(WARN@, duplicate_message(), Some(rule@.context));
        rules.push(rule);
        let ghost all = rules_view(rules@);
        proof {
            assert(all =~= before.push(rule@));
            assert(all[index as int] == rule@);
            assert(old(logger).lines() + repeated(line, 0) == old(logger).lines());
            lemma_consistent_grows(
                RuleMapView { rules: before, by_target: start },
                rule@,
            );
        }
        let n = rules[index].targets.len();
        let mut failed = false;
        let mut i: usize = 0;
        while i < n && !failed
            invariant
                i <= n,
                index < rules.len(),
                all == rules_view(rules@),
                all[index as int] == rule@,
                n == rules@[index as int].targets.len(),
                n == rule@.targets.len(),
                consistent(RuleMapView { rules: all, by_target: index_view(by_target@) }),
                index_view(by_target@) == enter(all, start, index, i as nat).by_target,
                failed == enter(all, start, index, i as nat).conflict,
                failed ==> enter(all, start, index, n as nat) == enter(all, start, index, i as nat),
                line == log_entry(WARN@, duplicate_message(), Some(rule@.context)),
                logger.logger() == old(logger).logger(),
                logger.lines() == old(logger).lines() + repeated(
                    line,
                    enter(all, start, index, i as nat).ignored,
                ),
            decreases n - i + (if failed { 0int } else { 1int }),
        {
            let target = &rules[index].targets[i];
            let ghost t = target@;
            let ghost prev = enter(all, start, index, i as nat);
            let ghost m0 = index_view(by_target@);
            proof {
                assert(rule@.targets[i as int] == t);
                assert(all[index as int].targets[i as int] == t);
            }
            let found = match by_target.get(target.as_str()) {
                None => None,
                Some(ix) => {
                    assert(m0.contains_key(t));
                    assert(m0[t] == ix@);
                    Some(copy_indices(ix))
                },
            };
            match found {
                None => {
                    let mut ix: Vec<usize> = Vec::new();
                    ix.push(index);
                    let key = target.clone();
                    proof {
                        assert(!m0.contains_key(t));
                        assert(ix@ == seq![index]);
                        assert(index_view(by_target@.insert(key@, ix)) =~= m0.insert(t, ix@));
                        lemma_consistent_first(
                            RuleMapView { rules: all, by_target: m0 },
                            t,
                            index,
                        );
                    }
                    by_target.insert(key, ix);
                },
                Some(ix) => {
                    let first = ix[0];
                    if rules[first].double_colon != rules[index].double_colon {
                        failed = true;
                        proof {
                            lemma_enter_stays(all, start, index, (i + 1) as nat, n as nat);
                        }
                    } else if rules[index].double_colon {
                        let mut more = ix;
                        more.push(index);
                        let key = target.clone();
                        proof {
                            assert(index_view(by_target@.insert(key@, more)) =~= m0.insert(
                                t,
                                more@,
                            ));
                            lemma_consistent_further(
                                RuleMapView { rules: all, by_target: m0 },
                                t,
                                index,
                            );
                        }
                        by_target.insert(key, more);
                    } else {
                        let context = &rules[index].context;
                        log_warn(logger, "Ignoring duplicate definition.", Some(context));
                        proof {
                            let k = prev.ignored;
                            assert(repeated(line, k + 1) =~= repeated(line, k).push(line));
                            assert((old(logger).lines() + repeated(line, k)).push(line) =~= old(
                                logger,
                            ).lines() + repeated(line, k + 1));
                        }
                    }
                },
            }
            i += 1;
        }
        let result = if failed {
            Err(
                MakeError::new(
                    "Cannot define rules using ':' and '::' on the same target.",
                    rules[index].context.clone(),
                ),
            )
        } else {
            Ok(())
        };
        self.rules = rules;
        self.by_target = by_target;
        result
    }

    /// The rules, in the order in which they were inserted.
    pub fn rules(&self) -> (out: &Vec<Rule>)
        ensures
            rules_view(out@) == self@.rules,
    {
        &self.rules
    }

    /// The rules of `target` in the order in which they were inserted, or
    /// none where the target has no rule.
    pub fn rules_for(&self, target: &str) -> (out: Option<Vec<&Rule>>)
        ensures
            out is Some <==> self@.by_target.contains_key(target@),
            out is Some ==> {
                let ix = self@.by_target[target@];
                &&& out->Some_0@.len() == ix.len()
                &&& forall|i: int|
                    0 <= i < ix.len() ==> (#[trigger] out->Some_0@[i])@ == self@.rules[ix[i] as int]
            },
    {
        proof {
            use_type_invariant(self);
        }
        match self.by_target.get(target) {
            None => None,
            Some(ix) => {
                let mut out: Vec<&Rule> = Vec::new();
                let mut i: usize = 0;
                while i < ix.len()
                    invariant
                        i <= ix.len(),
                        out@.len() == i,
                        self@.by_target.contains_key(target@),
                        ix@ == self@.by_target[target@],
                        consistent(self@),
                        forall|k: int|
                            0 <= k < i ==> (#[trigger] out@[k])@ == self@.rules[ix@[k] as int],
                    decreases ix.len() - i,
                {
                    assert(ix@[i as int] < self@.rules.len());
                    out.push(&self.rules[ix[i]]);
                    i += 1;
                }
                Some(out)
            },
        }
    }
}

/// In a sound index the rules of one target are all of one kind, and a
/// target of the single-colon kind has exactly one rule.
pub proof fn lemma_one_kind_per_target(m: RuleMapView, target: Seq<char>, i: int, j: int)
    requires
        consistent(m),
        m.by_target.contains_key(target),
        0 <= i < m.by_target[target].len(),
        0 <= j < m.by_target[target].len(),
    ensures
        m.rules[m.by_target[target][i] as int].double_colon == m.rules[m.by_target[target][j]
            as int].double_colon,
        !m.rules[m.by_target[target][i] as int].double_colon ==> m.by_target[target].len() == 1,
{
    let ix = m.by_target[target];
    assert(m.rules[ix[i] as int].double_colon == m.rules[ix[0] as int].double_colon);
    assert(m.rules[ix[j] as int].double_colon == m.rules[ix[0] as int].double_colon);
}

/// Storing one more rule keeps the index sound.
proof fn lemma_consistent_grows(m: RuleMapView, rule: RuleView)
    requires
        consistent(m),
    ensures
        consistent(RuleMapView { rules: m.rules.push(rule), by_target: m.by_target }),
{
    let m2 = RuleMapView { rules: m.rules.push(rule), by_target: m.by_target };
    assert forall|t: Seq<char>| #[trigger] m2.by_target.contains_key(t) implies {
        let ix = m2.by_target[t];
        &&& ix.len() > 0
        &&& forall|i: int|
            0 <= i < ix.len() ==> {
                &&& (#[trigger] ix[i]) < m2.rules.len()
                &&& m2.rules[ix[i] as int].targets.contains(t)
                &&& m2.rules[ix[i] as int].double_colon == m2.rules[ix[0] as int].double_colon
            }
        &&& !m2.rules[ix[0] as int].double_colon ==> ix.len() == 1
    } by {
        assert(m.by_target.contains_key(t));
        let ix = m.by_target[t];
        assert(ix[0] < m.rules.len());
        assert forall|i: int| 0 <= i < ix.len() implies {
            &&& (#[trigger] ix[i]) < m2.rules.len()
            &&& m2.rules[ix[i] as int].targets.contains(t)
            &&& m2.rules[ix[i] as int].double_colon == m2.rules[ix[0] as int].double_colon
        } by {
            assert(ix[i] < m.rules.len());
        }
    }
}

/// Entering a rule as the first of one of its targets keeps the index sound.
proof fn lemma_consistent_first(m: RuleMapView, t: Seq<char>, index: usize)
    requires
        consistent(m),
        index < m.rules.len(),
        m.rules[index as int].targets.contains(t),
        !m.by_target.contains_key(t),
    ensures
        consistent(RuleMapView { rules: m.rules, by_target: m.by_target.insert(t, seq![index]) }),
{
    let m2 = RuleMapView { rules: m.rules, by_target: m.by_target.insert(t, seq![index]) };
    assert forall|u: Seq<char>| #[trigger] m2.by_target.contains_key(u) implies {
        let ix = m2.by_target[u];
        &&& ix.len() > 0
        &&& forall|i: int|
            0 <= i < ix.len() ==> {
                &&& (#[trigger] ix[i]) < m2.rules.len()
                &&& m2.rules[ix[i] as int].targets.contains(u)
                &&& m2.rules[ix[i] as int].double_colon == m2.rules[ix[0] as int].double_colon
            }
        &&& !m2.rules[ix[0] as int].double_colon ==> ix.len() == 1
    } by {
        if u != t {
            assert(m.by_target.contains_key(u));
        }
    }
}

/// Entering a double-colon rule as a further rule of one of its targets, whose
/// rules are of that kind, keeps the index sound.
proof fn lemma_consistent_further(m: RuleMapView, t: Seq<char>, index: usize)
    requires
        consistent(m),
        index < m.rules.len(),
        m.rules[index as int].targets.contains(t),
        m.by_target.contains_key(t),
        m.rules[index as int].double_colon,
        m.rules[m.by_target[t][0] as int].double_colon,
    ensures
        consistent(
            RuleMapView {
                rules: m.rules,
                by_target: m.by_target.insert(t, m.by_target[t].push(index)),
            },
        ),
{
    let old_ix = m.by_target[t];
    let m2 = RuleMapView { rules: m.rules, by_target: m.by_target.insert(t, old_ix.push(index)) };
    assert forall|u: Seq<char>| #[trigger] m2.by_target.contains_key(u) implies {
        let ix = m2.by_target[u];
        &&& ix.len() > 0
        &&& forall|i: int|
            0 <= i < ix.len() ==> {
                &&& (#[trigger] ix[i]) < m2.rules.len()
                &&& m2.rules[ix[i] as int].targets.contains(u)
                &&& m2.rules[ix[i] as int].double_colon == m2.rules[ix[0] as int].double_colon
            }
        &&& !m2.rules[ix[0] as int].double_colon ==> ix.len() == 1
    } by {
        if u != t {
            assert(m.by_target.contains_key(u));
        } else {
            let ix = m2.by_target[u];
            assert(ix[0] == old_ix[0]);
            assert forall|i: int| 0 <= i < ix.len() implies {
                &&& (#[trigger] ix[i]) < m2.rules.len()
                &&& m2.rules[ix[i] as int].targets.contains(u)
                &&& m2.rules[ix[i] as int].double_colon == m2.rules[ix[0] as int].double_colon
            } by {
                if i < old_ix.len() {
                    assert(ix[i] == old_ix[i]);
                }
            }
        }
    }
}

/// Once a target stopped the entering, the targets after it change nothing.
proof fn lemma_enter_stays(
    rules: Seq<RuleView>,
    start: Map<Seq<char>, Seq<usize>>,
    index: usize,
    k: nat,
    n: nat,
)
    requires
        k <= n <= rules[index as int].targets.len(),
        enter(rules, start, index, k).conflict,
    ensures
        enter(rules, start, index, n) == enter(rules, start, index, k),
    decreases n - k,
{
    if k < n {
        lemma_enter_stays(rules, start, index, k, (n - 1) as nat);
    }
}

} // verus!
