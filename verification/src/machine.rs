//! The declarative state machine: its build-time validation and the
//! runtime that drives a job through it.

use vstd::prelude::*;
use crate::action::{
    cfg_view, effv, run_action_list, spec_run_list, ActionError, Action, Effect, EffectV,
};
use crate::devinfo::{DeviceInformation, InfoV};
use crate::job::{spec_has_loop_detected, spec_history_count, JobData, JobDataV};
use crate::status::{JobUpdate, UpdateV};
use crate::trigger::{spec_trig_matches, Trigger};

verus! {

/// One outgoing edge of a state: fire on `trigger`, go to `target`,
/// perform `actions` in order.
#[derive(Debug)]
pub struct Transition {
    pub trigger: Trigger,
    pub target: String,
    pub actions: Vec<Action>,
}

/// A state: its outgoing transitions, in match-priority order.
#[derive(Debug)]
pub struct State {
    pub transitions: Vec<Transition>,
}

/// A named declarative state file: an ordered list of named states.
#[derive(Debug)]
pub struct StateFile {
    pub name: String,
    pub states: Vec<(String, State)>,
}

/// The merged, validated mapping from state name to state.
#[derive(Debug)]
pub struct StateMachineSpec {
    pub states: Vec<(String, State)>,
}

/// The first index bound to `name`, if any.
pub open spec fn spec_state_index(states: Seq<(String, State)>, name: Seq<char>) -> Option<int>
    decreases states.len(),
{
    if states.len() == 0 {
        None
    } else if states.first().0@ == name {
        Some(0)
    } else {
        match spec_state_index(states.drop_first(), name) {
            Some(i) => Some(i + 1),
            None => None,
        }
    }
}

/// Whether `name` is a state of the machine.
pub open spec fn spec_has_state(states: Seq<(String, State)>, name: Seq<char>) -> bool {
    spec_state_index(states, name) is Some
}

proof fn lemma_state_index(states: Seq<(String, State)>, name: Seq<char>)
    ensures
        match spec_state_index(states, name) {
            Some(i) => 0 <= i < states.len() && states[i].0@ == name && (forall|j: int|
                0 <= j < i ==> states[j].0@ != name),
            None => forall|j: int| 0 <= j < states.len() ==> states[j].0@ != name,
        },
    decreases states.len(),
{
    if states.len() > 0 {
        lemma_state_index(states.drop_first(), name);
        let rest = states.drop_first();
        assert(forall|j: int| 0 <= j < rest.len() ==> #[trigger] rest[j] == states[j + 1]);
        if states.first().0@ != name {
            match spec_state_index(rest, name) {
                Some(i) => {
                    assert(states[i + 1].0@ == name);
                    assert forall|j: int| 0 <= j < i + 1 implies states[j].0@ != name by {
                        if j > 0 {
                            assert(rest[j - 1].0@ != name);
                        }
                    }
                },
                None => {
                    assert forall|j: int| 0 <= j < states.len() implies states[j].0@ != name by {
                        if j > 0 {
                            assert(rest[j - 1].0@ != name);
                        }
                    }
                },
            }
        }
    }
}

impl StateMachineSpec {
    /// Well-formedness: unique names, `Init` and `EndJob` present, every
    /// transition's target a key of the mapping.
    pub open spec fn wf(self) -> bool {
        &&& forall|i: int, j: int|
            0 <= i < j < self.states@.len() ==> self.states@[i].0@ != self.states@[j].0@
        &&& spec_has_state(self.states@, "Init"@)
        &&& spec_has_state(self.states@, "EndJob"@)
        &&& forall|i: int, k: int|
            0 <= i < self.states@.len() && 0 <= k
                < self.states@[i].1.transitions@.len() ==> spec_has_state(
                self.states@,
                #[trigger] self.states@[i].1.transitions@[k].target@,
            )
    }

    /// Looks `name` up; `Some` exactly when the machine has such a state.
    pub fn state_index(&self, name: &str) -> (r: Option<usize>)
        ensures
            match r {
                Some(i) => spec_state_index(self.states@, name@) == Some(i as int),
                None => spec_state_index(self.states@, name@) is None,
            },
    {
        let n = self.states.len();
        for i in 0..n
            invariant
                n == self.states@.len(),
                forall|j: int| 0 <= j < i ==> self.states@[j].0@ != name@,
        {
            if self.states[i].0 == String::from_str(name) {
                proof {
                    lemma_state_index(self.states@, name@);
                }
                return Some(i);
            }
        }
        proof {
            lemma_state_index(self.states@, name@);
        }
        None
    }
}

/// Why a build failed.
#[derive(Debug, PartialEq, Eq)]
pub enum BuildError {
    /// No state named `Init` after merging.
    MissingInit,
    /// No state named `EndJob` after merging.
    MissingEndJob,
    /// A transition's target is not a state of the merged machine.
    UnknownTarget(String),
    /// A `Function` action names an effect the registry does not know.
    UnknownFunction(String),
}

/// Replaces the entry bound to this name, or appends a new one.
pub open spec fn spec_upsert(
    states: Seq<(String, State)>,
    entry: (String, State),
) -> Seq<(String, State)> {
    match spec_state_index(states, entry.0@) {
        Some(i) => states.update(i, entry),
        None => states.push(entry),
    }
}

/// Merges one file's states into the accumulator, in order.
pub open spec fn spec_merge_states(
    acc: Seq<(String, State)>,
    sts: Seq<(String, State)>,
) -> Seq<(String, State)>
    decreases sts.len(),
{
    if sts.len() == 0 {
        acc
    } else {
        spec_merge_states(spec_upsert(acc, sts.first()), sts.drop_first())
    }
}

/// Merges the files in activation order: later files override states of
/// the same name.
pub open spec fn spec_merge_files(
    acc: Seq<(String, State)>,
    files: Seq<StateFile>,
) -> Seq<(String, State)>
    decreases files.len(),
{
    if files.len() == 0 {
        acc
    } else {
        spec_merge_files(spec_merge_states(acc, files.first().states@), files.drop_first())
    }
}

/// Unique state names.
pub open spec fn spec_names_unique(states: Seq<(String, State)>) -> bool {
    forall|i: int, j: int| 0 <= i < j < states.len() ==> states[i].0@ != states[j].0@
}

/// Every transition target of every state is a key.
pub open spec fn spec_targets_present(states: Seq<(String, State)>) -> bool {
    forall|i: int, k: int|
        0 <= i < states.len() && 0 <= k < states[i].1.transitions@.len() ==> spec_has_state(
            states,
            #[trigger] states[i].1.transitions@[k].target@,
        )
}

/// Whether `name` is one of the registry's entries.
pub open spec fn spec_in_registry(reg: Seq<Seq<char>>, name: Seq<char>) -> bool {
    exists|i: int| 0 <= i < reg.len() && reg[i] == name
}

/// Whether every `Function` action of this action names a registered
/// effect.
pub open spec fn spec_act_funcs_known(a: Action, reg: Seq<Seq<char>>) -> bool
    decreases crate::action::act_size(a), 0nat,
{
    match a {
        Action::Function { func } => spec_in_registry(reg, func@),
        Action::Repeat { actions, times } => spec_acts_funcs_known(actions@, reg),
        _ => true,
    }
}

/// Whether every `Function` action in this list names a registered effect.
pub open spec fn spec_acts_funcs_known(s: Seq<Action>, reg: Seq<Seq<char>>) -> bool
    decreases crate::action::acts_size(s) + 1, 0nat,
    via spec_acts_funcs_known_decreases
{
    if s.len() == 0 {
        true
    } else {
        spec_act_funcs_known(s.first(), reg) && spec_acts_funcs_known(s.drop_first(), reg)
    }
}

#[via_fn]
proof fn spec_acts_funcs_known_decreases(s: Seq<Action>, reg: Seq<Seq<char>>) {
    if s.len() > 0 {
        crate::action::lemma_act_size_pos(s.first());
    }
}

/// Whether every `Function` action of the whole machine is registered.
pub open spec fn spec_funcs_known(states: Seq<(String, State)>, reg: Seq<Seq<char>>) -> bool {
    forall|i: int, k: int|
        0 <= i < states.len() && 0 <= k < states[i].1.transitions@.len()
            ==> spec_acts_funcs_known(
            (#[trigger] states[i].1.transitions@[k]).actions@,
            reg,
        )
}

/// The view of a registry of effect names.
pub open spec fn reg_view(reg: Seq<String>) -> Seq<Seq<char>> {
    reg.map_values(|s: String| s@)
}

/// Everything `build` checks of the merged machine.
pub open spec fn spec_build_ok(states: Seq<(String, State)>, reg: Seq<Seq<char>>) -> bool {
    &&& spec_has_state(states, "Init"@)
    &&& spec_has_state(states, "EndJob"@)
    &&& spec_targets_present(states)
    &&& spec_funcs_known(states, reg)
}

proof fn lemma_upsert_unique(states: Seq<(String, State)>, entry: (String, State))
    requires
        spec_names_unique(states),
    ensures
        spec_names_unique(spec_upsert(states, entry)),
        forall|n: Seq<char>|
            spec_has_state(spec_upsert(states, entry), n) <==> spec_has_state(states, n) || n
                == entry.0@,
{
    lemma_state_index(states, entry.0@);
    let r = spec_upsert(states, entry);
    match spec_state_index(states, entry.0@) {
        Some(i) => {
            assert forall|n: Seq<char>|
                spec_has_state(r, n) <==> spec_has_state(states, n) || n == entry.0@ by {
                lemma_state_index(r, n);
                lemma_state_index(states, n);
                if spec_has_state(states, n) {
                    let j = spec_state_index(states, n)->0;
                    if j == i {
                        assert(r[i].0@ == n || n == entry.0@);
                    } else {
                        assert(r[j].0@ == n);
                    }
                    assert(spec_has_state(r, n));
                }
                if spec_has_state(r, n) {
                    let j = spec_state_index(r, n)->0;
                    if j == i {
                    } else {
                        assert(states[j].0@ == n);
                    }
                }
                if n == entry.0@ {
                    assert(r[i].0@ == n);
                    lemma_state_index(r, n);
                }
            }
        },
        None => {
            assert forall|n: Seq<char>|
                spec_has_state(r, n) <==> spec_has_state(states, n) || n == entry.0@ by {
                lemma_state_index(r, n);
                lemma_state_index(states, n);
                if spec_has_state(states, n) {
                    let j = spec_state_index(states, n)->0;
                    assert(r[j].0@ == n);
                }
                if spec_has_state(r, n) {
                    let j = spec_state_index(r, n)->0;
                    if j < states.len() {
                        assert(states[j].0@ == n);
                    }
                }
                if n == entry.0@ {
                    assert(r[states.len() as int].0@ == n);
                }
            }
        },
    }
}

/// Whether `name` is in the effect registry.
fn reg_contains(reg: &Vec<String>, name: &String) -> (r: bool)
    ensures
        r == spec_in_registry(reg_view(reg@), name@),
{
    let n = reg.len();
    for i in 0..n
        invariant
            n == reg@.len(),
            forall|j: int| 0 <= j < i ==> reg_view(reg@)[j] != name@,
    {
        if reg[i] == *name {
            proof {
                assert(reg_view(reg@)[i as int] == name@);
            }
            return true;
        }
    }
    false
}

/// Checks the tail of an action list from `i` for unregistered `Function`
/// names; returns one such name if there is any.
fn check_funcs_from(acts: &Vec<Action>, i: usize, reg: &Vec<String>) -> (r: Option<String>)
    requires
        i <= acts@.len(),
    ensures
        match r {
            None => spec_acts_funcs_known(acts@.skip(i as int), reg_view(reg@)),
            Some(f) => !spec_in_registry(reg_view(reg@), f@) && !spec_acts_funcs_known(
                acts@.skip(i as int),
                reg_view(reg@),
            ),
        },
    decreases crate::action::acts_size(acts@), acts@.len() - i,
{
    if i == acts.len() {
        proof {
            assert(acts@.skip(i as int) =~= Seq::<Action>::empty());
        }
        return None;
    }
    let ghost tailv = acts@.skip(i as int);
    proof {
        assert(tailv.first() == acts@[i as int]);
        assert(tailv.drop_first() =~= acts@.skip(i as int + 1));
    }
    match &acts[i] {
        Action::Function { func } => {
            if !reg_contains(reg, func) {
                proof {
                    assert(tailv.first() matches Action::Function { func: g } && g@ == func@);
                    assert(!spec_act_funcs_known(tailv.first(), reg_view(reg@)));
                    assert(!spec_acts_funcs_known(tailv, reg_view(reg@)));
                }
                return Some(func.clone());
            }
        },
        Action::Repeat { actions, times } => {
            proof {
                crate::action::lemma_acts_size_member(acts@, i as int);
            }
            match check_funcs_from(actions, 0, reg) {
                Some(f) => {
                    proof {
                        assert(actions@.skip(0) =~= actions@);
                        assert(!spec_act_funcs_known(tailv.first(), reg_view(reg@)));
                        assert(!spec_acts_funcs_known(tailv, reg_view(reg@)));
                    }
                    return Some(f);
                },
                None => {
                    proof {
                        assert(actions@.skip(0) =~= actions@);
                    }
                },
            }
        },
        _ => {},
    }
    let rec = check_funcs_from(acts, i + 1, reg);
    proof {
        match rec {
            None => {
                assert(spec_acts_funcs_known(tailv.drop_first(), reg_view(reg@)));
                assert(spec_act_funcs_known(tailv.first(), reg_view(reg@)));
                assert(spec_acts_funcs_known(tailv, reg_view(reg@)));
            },
            Some(_) => {
                assert(!spec_acts_funcs_known(tailv.drop_first(), reg_view(reg@)));
                assert(!spec_acts_funcs_known(tailv, reg_view(reg@)));
            },
        }
    }
    rec
}

/// The first index of `name` among the entries.
fn find_name_index(states: &Vec<(String, State)>, name: &String) -> (r: Option<usize>)
    ensures
        match r {
            Some(i) => spec_state_index(states@, name@) == Some(i as int),
            None => spec_state_index(states@, name@) is None,
        },
{
    let n = states.len();
    for i in 0..n
        invariant
            n == states@.len(),
            forall|j: int| 0 <= j < i ==> states@[j].0@ != name@,
    {
        if states[i].0 == *name {
            proof {
                lemma_state_index(states@, name@);
            }
            return Some(i);
        }
    }
    proof {
        lemma_state_index(states@, name@);
    }
    None
}

/// An unknown-target failure: `t` occurs as a target and is no state.
pub open spec fn spec_target_unknown(states: Seq<(String, State)>, t: Seq<char>) -> bool {
    &&& !spec_has_state(states, t)
    &&& exists|i: int, k: int|
        0 <= i < states.len() && 0 <= k < states[i].1.transitions@.len() && (
        #[trigger] states[i].1.transitions@[k]).target@ == t
}

/// Collects declarative state files in activation order and builds the
/// validated machine.
#[derive(Debug)]
pub struct StateMachineBuilder {
    pub files: Vec<StateFile>,
}

impl StateMachineBuilder {
    pub fn new() -> (r: Self)
        ensures
            r.files@ =~= Seq::<StateFile>::empty(),
    {
        StateMachineBuilder { files: Vec::new() }
    }

    /// Activates one more file; later files override states of the same
    /// name.
    pub fn add_file(&mut self, f: StateFile)
        ensures
            final(self).files@ == old(self).files@.push(f),
    {
        self.files.push(f);
    }

    /// Merges the activated files and validates the result: `Init` and
    /// `EndJob` must exist, every target must be a state, and every
    /// `Function` action must name a registered effect. `Ok` exactly when
    /// all four hold.
    #[verifier::rlimit(100)]
    #[verifier::loop_isolation(false)]
    pub fn build(self, registry: &Vec<String>) -> (r: Result<StateMachineSpec, BuildError>)
        ensures
            ({
                let merged = spec_merge_files(Seq::empty(), self.files@);
                let regv = reg_view(registry@);
                match r {
                    Ok(sm) => sm.states@ == merged && sm.wf() && spec_build_ok(merged, regv),
                    Err(BuildError::MissingInit) => !spec_has_state(merged, "Init"@),
                    Err(BuildError::MissingEndJob) => !spec_has_state(merged, "EndJob"@),
                    Err(BuildError::UnknownTarget(t)) => spec_target_unknown(merged, t@),
                    Err(BuildError::UnknownFunction(f)) => !spec_in_registry(regv, f@)
                        && !spec_funcs_known(merged, regv),
                }
            }),
    {
        let ghost goal = spec_merge_files(Seq::empty(), self.files@);
        let mut merged: Vec<(String, State)> = Vec::new();
        let mut files = self.files;
        proof {
            assert(merged@ =~= Seq::<(String, State)>::empty());
        }
        while files.len() > 0
            invariant
                spec_merge_files(merged@, files@) == goal,
                spec_names_unique(merged@),
            decreases files@.len(),
        {
            let ghost files0 = files@;
            let f = files.remove(0);
            proof {
                assert(files@ =~= files0.drop_first());
                assert(f == files0.first());
            }
            let mut sts = f.states;
            while sts.len() > 0
                invariant
                    spec_merge_files(spec_merge_states(merged@, sts@), files@) == goal,
                    spec_names_unique(merged@),
                decreases sts@.len(),
            {
                let ghost sts0 = sts@;
                let ghost merged0 = merged@;
                let entry = sts.remove(0);
                proof {
                    assert(sts@ =~= sts0.drop_first());
                    assert(entry == sts0.first());
                    lemma_upsert_unique(merged0, entry);
                    lemma_state_index(merged0, entry.0@);
                }
                match find_name_index(&merged, &entry.0) {
                    Some(i) => {
                        merged.remove(i);
                        merged.insert(i, entry);
                        proof {
                            assert(merged@ =~= merged0.update(i as int, sts0.first()));
                            assert(merged@ == spec_upsert(merged0, sts0.first()));
                        }
                    },
                    None => {
                        merged.push(entry);
                        proof {
                            assert(merged@ == spec_upsert(merged0, sts0.first()));
                        }
                    },
                }
                proof {
                    assert(spec_merge_states(merged0, sts0) == spec_merge_states(
                        merged@,
                        sts@,
                    ));
                }
            }
            proof {
                assert(sts@.len() == 0);
            }
        }
        proof {
            assert(files@.len() == 0);
            assert(merged@ == goal);
        }
        let sm = StateMachineSpec { states: merged };
        if sm.state_index("Init").is_none() {
            return Err(BuildError::MissingInit);
        }
        if sm.state_index("EndJob").is_none() {
            return Err(BuildError::MissingEndJob);
        }
        let n = sm.states.len();
        for i in 0..n
            invariant
                n == sm.states@.len(),
                sm.states@ == goal,
                spec_names_unique(goal),
                spec_has_state(goal, "Init"@),
                spec_has_state(goal, "EndJob"@),
                forall|i2: int, k2: int|
                    0 <= i2 < i && 0 <= k2 < sm.states@[i2].1.transitions@.len()
                        ==> spec_has_state(
                        sm.states@,
                        #[trigger] sm.states@[i2].1.transitions@[k2].target@,
                    ),
        {
            let m = sm.states[i].1.transitions.len();
            for k in 0..m
                invariant
                    n == sm.states@.len(),
                    sm.states@ == goal,
                    spec_names_unique(goal),
                    spec_has_state(goal, "Init"@),
                    spec_has_state(goal, "EndJob"@),
                    0 <= i < n,
                    m == sm.states@[i as int].1.transitions@.len(),
                    forall|i2: int, k2: int|
                        0 <= i2 < i && 0 <= k2 < sm.states@[i2].1.transitions@.len()
                            ==> spec_has_state(
                            sm.states@,
                            #[trigger] sm.states@[i2].1.transitions@[k2].target@,
                        ),
                    forall|k2: int|
                        0 <= k2 < k ==> spec_has_state(
                            sm.states@,
                            #[trigger] sm.states@[i as int].1.transitions@[k2].target@,
                        ),
            {
                if sm.state_index(sm.states[i].1.transitions[k].target.as_str()).is_none() {
                    let t = sm.states[i].1.transitions[k].target.clone();
                    proof {
                        assert(t@ == sm.states@[i as int].1.transitions@[k as int].target@);
                        assert(!spec_has_state(goal, t@));
                        assert((goal[i as int].1.transitions@).len() > k as int);
                        assert(goal[i as int].1.transitions@[k as int].target@ == t@);
                        assert(spec_target_unknown(goal, t@));
                    }
                    return Err(BuildError::UnknownTarget(t));
                }
            }
        }
        let n2 = sm.states.len();
        for i in 0..n2
            invariant
                n2 == sm.states@.len(),
                sm.states@ == goal,
                spec_names_unique(goal),
                spec_has_state(goal, "Init"@),
                spec_has_state(goal, "EndJob"@),
                spec_targets_present(goal),
                forall|i2: int, k2: int|
                    0 <= i2 < i && 0 <= k2 < sm.states@[i2].1.transitions@.len()
                        ==> spec_acts_funcs_known(
                        (#[trigger] sm.states@[i2].1.transitions@[k2]).actions@,
                        reg_view(registry@),
                    ),
        {
            let m = sm.states[i].1.transitions.len();
            for k in 0..m
                invariant
                    n2 == sm.states@.len(),
                    sm.states@ == goal,
                    spec_names_unique(goal),
                    spec_has_state(goal, "Init"@),
                    spec_has_state(goal, "EndJob"@),
                    spec_targets_present(goal),
                    0 <= i < n2,
                    m == sm.states@[i as int].1.transitions@.len(),
                    forall|i2: int, k2: int|
                        0 <= i2 < i && 0 <= k2 < sm.states@[i2].1.transitions@.len()
                            ==> spec_acts_funcs_known(
                            (#[trigger] sm.states@[i2].1.transitions@[k2]).actions@,
                            reg_view(registry@),
                        ),
                    forall|k2: int|
                        0 <= k2 < k ==> spec_acts_funcs_known(
                            (#[trigger] sm.states@[i as int].1.transitions@[k2]).actions@,
                            reg_view(registry@),
                        ),
            {
                match check_funcs_from(&sm.states[i].1.transitions[k].actions, 0, registry) {
                    Some(fname) => {
                        proof {
                            let acts = sm.states@[i as int].1.transitions@[k as int].actions@;
                            assert(acts.skip(0) =~= acts);
                            assert(!spec_acts_funcs_known(acts, reg_view(registry@)));
                            assert(!spec_funcs_known(goal, reg_view(registry@)));
                        }
                        return Err(BuildError::UnknownFunction(fname));
                    },
                    None => {
                        proof {
                            let acts = sm.states@[i as int].1.transitions@[k as int].actions@;
                            assert(acts.skip(0) =~= acts);
                        }
                    },
                }
            }
        }
        Ok(sm)
    }
}

/// What the caller hands the step: which kind of occasion fires it.
#[derive(Debug, PartialEq, Eq)]
pub enum StepEvent {
    /// Take the first `Immediate` transition.
    Immediate,
    /// The engine matched: the consumed prefix and the matched bytes.
    Matched { data: Vec<u8>, matched: Vec<u8> },
    /// The declared timeout elapsed with no match.
    TimedOut,
}

/// What the caller should do to obtain the next event.
#[derive(Debug, PartialEq, Eq)]
pub enum StepPlan {
    /// An `Immediate` transition is pending: step at once.
    Immediate,
    /// Wait for serial input, up to the given milliseconds if bounded.
    WaitInput { timeout: Option<u64> },
}

/// Why a step failed. Every failure marks the job fatal.
#[derive(Debug, PartialEq, Eq)]
pub enum StepError {
    /// The current state is not a key of the machine.
    UnknownState(String),
    /// No transition of the current state accepts the event.
    TransitionAmbiguity,
    /// An action failed.
    Action(ActionError),
}

/// Whether this trigger accepts this occasion.
pub open spec fn spec_event_accepts(t: Trigger, ev: StepEvent) -> bool {
    match ev {
        StepEvent::Immediate => t is Immediate,
        StepEvent::Matched { data, matched } => spec_trig_matches(t, matched@),
        StepEvent::TimedOut => t is Timeout,
    }
}

/// The first transition, in declaration order, whose trigger accepts the
/// event.
pub open spec fn spec_resolve(trans: Seq<Transition>, ev: StepEvent) -> Option<int>
    decreases trans.len(),
{
    if trans.len() == 0 {
        None
    } else if spec_event_accepts(trans.first().trigger, ev) {
        Some(0)
    } else {
        match spec_resolve(trans.drop_first(), ev) {
            Some(i) => Some(i + 1),
            None => None,
        }
    }
}

proof fn lemma_resolve(trans: Seq<Transition>, ev: StepEvent)
    ensures
        match spec_resolve(trans, ev) {
            Some(i) => 0 <= i < trans.len() && spec_event_accepts(trans[i].trigger, ev) && (forall|
                j: int,
            |
                0 <= j < i ==> !spec_event_accepts(trans[j].trigger, ev)),
            None => forall|j: int|
                0 <= j < trans.len() ==> !spec_event_accepts(trans[j].trigger, ev),
        },
    decreases trans.len(),
{
    if trans.len() > 0 {
        lemma_resolve(trans.drop_first(), ev);
        let rest = trans.drop_first();
        assert(forall|j: int| 0 <= j < rest.len() ==> #[trigger] rest[j] == trans[j + 1]);
        if !spec_event_accepts(trans.first().trigger, ev) {
            match spec_resolve(rest, ev) {
                Some(i) => {
                    assert forall|j: int|
                        0 <= j < i + 1 implies !spec_event_accepts(trans[j].trigger, ev) by {
                        if j > 0 {
                            assert(!spec_event_accepts(rest[j - 1].trigger, ev));
                        }
                    }
                },
                None => {
                    assert forall|j: int|
                        0 <= j < trans.len() implies !spec_event_accepts(trans[j].trigger, ev) by {
                        if j > 0 {
                            assert(!spec_event_accepts(rest[j - 1].trigger, ev));
                        }
                    }
                },
            }
        }
    }
}

/// Whether a stepped job is already done for: fatal, or flagged as
/// looping. Stepping such a job does nothing.
pub open spec fn spec_step_guarded(d: JobDataV) -> bool {
    d.fatal || spec_has_loop_detected(d.info_items)
}

/// The outcome of a successful step.
pub struct StepPostV {
    pub current: Seq<char>,
    pub data: JobDataV,
    pub effects: Seq<EffectV>,
}

/// What executing the winning transition does: record the target, perform
/// the actions, then force `EndJob` if the target has been entered more
/// than five times.
pub open spec fn spec_apply_transition(
    t: Transition,
    d0: JobDataV,
    cfg: Seq<(Seq<char>, Seq<char>)>,
    now: int,
) -> Result<StepPostV, char> {
    let d1 = d0.spec_update(UpdateV::JobStageTransition(now, t.target@));
    match spec_run_list(t.actions@, d1, cfg, now) {
        Err(c) => Err(c),
        Ok((d2, effs)) => {
            let base = seq![
                EffectV::Update(UpdateV::JobStageTransition(now, t.target@)),
            ] + effs;
            if spec_history_count(d2.state_history, t.target@) > 5 {
                let d3 = d2.spec_update(UpdateV::JobNewInfoItem(InfoV::LoopDetected));
                if t.target@ == "EndJob"@ {
                    Ok(
                        StepPostV {
                            current: "EndJob"@,
                            data: d3,
                            effects: base + seq![
                                EffectV::Update(UpdateV::JobNewInfoItem(InfoV::LoopDetected)),
                            ],
                        },
                    )
                } else {
                    Ok(
                        StepPostV {
                            current: "EndJob"@,
                            data: d3.spec_update(UpdateV::JobStageTransition(now, "EndJob"@)),
                            effects: base + seq![
                                EffectV::Update(UpdateV::JobNewInfoItem(InfoV::LoopDetected)),
                                EffectV::Update(UpdateV::JobStageTransition(now, "EndJob"@)),
                            ],
                        },
                    )
                }
            } else {
                Ok(StepPostV { current: t.target@, data: d2, effects: base })
            }
        },
    }
}

/// The record after a reset at time `now`: a fresh run, started, with the
/// label kept. The initial `Init` entry is announced to the broker but not
/// recorded: the history counts re-entries.
pub open spec fn spec_after_reset(label: Seq<char>, now: int) -> JobDataV {
    JobDataV {
        label: label,
        job_started: Some(now),
        job_ended: None,
        state_history: Seq::empty(),
        info_items: Seq::empty(),
        fatal: false,
    }
}

/// The history bound the runtime maintains: six at most for every name,
/// five unless the job has been flagged (looping or fatal).
pub open spec fn spec_counts_ok(d: JobDataV) -> bool {
    &&& forall|n: Seq<char>| #[trigger] spec_history_count(d.state_history, n) <= 6
    &&& !spec_has_loop_detected(d.info_items) && !d.fatal ==> forall|n: Seq<char>|
        #[trigger] spec_history_count(d.state_history, n) <= 5
}

/// Appending one entry raises exactly that name's count by one.
pub proof fn lemma_history_count_push(
    hist: Seq<(int, Seq<char>)>,
    e: (int, Seq<char>),
    n: Seq<char>,
)
    ensures
        spec_history_count(hist.push(e), n) == spec_history_count(hist, n) + if e.1 == n {
            1int
        } else {
            0int
        },
{
    assert(hist.push(e).drop_last() =~= hist);
    assert(hist.push(e).last() == e);
}

/// How often `name` occurs in the history.
#[verifier::loop_isolation(false)]
pub fn count_history(hist: &Vec<(i64, String)>, name: &String) -> (r: usize)
    ensures
        r == spec_history_count(crate::job::hist_view(hist@), name@),
{
    let ghost hv = crate::job::hist_view(hist@);
    let n = hist.len();
    let mut cnt: usize = 0;
    for i in 0..n
        invariant
            cnt <= i,
            cnt == spec_history_count(hv.take(i as int), name@),
    {
        proof {
            assert(hv.take(i as int + 1).drop_last() =~= hv.take(i as int));
            assert(hv.take(i as int + 1).last() == hv[i as int]);
            assert(hv[i as int] == (hist@[i as int].0 as int, hist@[i as int].1@));
        }
        if hist[i].1 == *name {
            cnt = cnt + 1;
        }
    }
    proof {
        assert(hv.take(n as int) =~= hv);
    }
    cnt
}

/// Whether this trigger accepts this occasion.
fn event_accepts(t: &Trigger, ev: &StepEvent) -> (r: bool)
    ensures
        r == spec_event_accepts(*t, *ev),
{
    match ev {
        StepEvent::Immediate => matches!(t, Trigger::Immediate),
        StepEvent::Matched { data: _, matched } => t.matches_bytes(matched.as_slice()),
        StepEvent::TimedOut => matches!(t, Trigger::Timeout(_)),
    }
}

/// The first transition accepting the event.
fn resolve_index(trans: &Vec<Transition>, ev: &StepEvent) -> (r: Option<usize>)
    ensures
        match r {
            Some(i) => spec_resolve(trans@, *ev) == Some(i as int),
            None => spec_resolve(trans@, *ev) is None,
        },
{
    let n = trans.len();
    for i in 0..n
        invariant
            n == trans@.len(),
            forall|j: int| 0 <= j < i ==> !spec_event_accepts(trans@[j].trigger, *ev),
    {
        if event_accepts(&trans[i].trigger, ev) {
            proof {
                lemma_resolve(trans@, *ev);
            }
            return Some(i);
        }
    }
    proof {
        lemma_resolve(trans@, *ev);
    }
    None
}

/// Whether the caller should terminate now or at the next idle boundary.
#[derive(Clone, Copy, Debug, PartialEq, Eq, Structural)]
pub enum RestartDecision {
    /// The job is idle: terminate at once.
    RestartNow,
    /// The job is busy: termination is deferred to the next idle boundary.
    Deferred,
}

/// The state-machine runtime: the current state, the job record, and the
/// job's config map, driven one transition per step.
#[derive(Debug)]
pub struct JobRuntime {
    pub sm: StateMachineSpec,
    pub current: String,
    pub data: JobData,
    pub job_config: Vec<(String, String)>,
    pub shutdown_requested: bool,
}

impl JobRuntime {
    /// The runtime's invariant: a well-formed machine and the history
    /// bound.
    pub open spec fn wf(self) -> bool {
        &&& self.sm.wf()
        &&& spec_counts_ok(self.data@)
    }

    pub fn new(sm: StateMachineSpec, label: &str, job_config: Vec<(String, String)>) -> (r:
        JobRuntime)
        requires
            sm.wf(),
        ensures
            r.wf(),
            r.sm == sm,
            r.current@ == "Init"@,
            r.data@ == JobDataV::fresh(label@),
            r.job_config == job_config,
            r.shutdown_requested == false,
    {
        let r = JobRuntime {
            sm,
            current: String::from_str("Init"),
            data: JobData::with_label(label),
            job_config,
            shutdown_requested: false,
        };
        proof {
            assert forall|n: Seq<char>|
                #[trigger] spec_history_count(r.data@.state_history, n) <= 5 by {
                assert(r.data@.state_history.len() == 0);
            }
        }
        r
    }

    /// Sets the job back to `Init` with a cleared record, and announces
    /// `JobStart` and the `Init` stage to the broker.
    pub fn reset(&mut self, now: i64) -> (r: Vec<Effect>)
        ensures
            final(self).current@ == "Init"@,
            final(self).data@ == spec_after_reset(old(self).data@.label, now as int),
            final(self).sm == old(self).sm,
            final(self).job_config == old(self).job_config,
            final(self).shutdown_requested == old(self).shutdown_requested,
            old(self).sm.wf() ==> final(self).wf(),
            effv(r@) == seq![
                EffectV::Update(UpdateV::JobStart(now as int)),
                EffectV::Update(UpdateV::JobStageTransition(now as int, "Init"@)),
            ],
    {
        self.current = String::from_str("Init");
        self.data.update(JobUpdate::JobStart(now));
        let mut out: Vec<Effect> = Vec::new();
        out.push(Effect::Update(JobUpdate::JobStart(now)));
        out.push(Effect::Update(JobUpdate::JobStageTransition(now, String::from_str("Init"))));
        proof {
            assert(self.data@ == spec_after_reset(old(self).data@.label, now as int));
            assert(effv(out@) =~= seq![
                EffectV::Update(UpdateV::JobStart(now as int)),
                EffectV::Update(UpdateV::JobStageTransition(now as int, "Init"@)),
            ]);
            assert forall|n: Seq<char>|
                #[trigger] spec_history_count(self.data@.state_history, n) <= 5 by {
                assert(self.data@.state_history.len() == 0);
            }
        }
        out
    }

    /// What the caller should do next for the current state.
    #[verifier::loop_isolation(false)]
    pub fn plan(&self) -> (r: Result<StepPlan, StepError>)
        ensures
            ({
                let sidx = spec_state_index(self.sm.states@, self.current@);
                match r {
                    Ok(StepPlan::Immediate) => sidx matches Some(i) && (exists|k: int|
                        0 <= k < self.sm.states@[i].1.transitions@.len() && (
                        #[trigger] self.sm.states@[i].1.transitions@[k].trigger) is Immediate),
                    Ok(StepPlan::WaitInput { timeout }) => sidx matches Some(i) && (forall|k: int|
                        0 <= k < self.sm.states@[i].1.transitions@.len() ==> !((
                        #[trigger] self.sm.states@[i].1.transitions@[k].trigger) is Immediate))
                        && match timeout {
                        Some(ms) => spec_first_timeout(self.sm.states@[i].1.transitions@) == Some(
                            ms as int,
                        ),
                        None => spec_first_timeout(self.sm.states@[i].1.transitions@) is None,
                    },
                    Err(StepError::UnknownState(nm)) => sidx is None && nm@ == self.current@,
                    Err(_) => false,
                }
            }),
    {
        let sidx = match self.sm.state_index(self.current.as_str()) {
            Some(i) => i,
            None => {
                return Err(StepError::UnknownState(self.current.clone()));
            },
        };
        proof {
            lemma_state_index(self.sm.states@, self.current@);
        }
        let trans = &self.sm.states[sidx].1.transitions;
        let n = trans.len();
        for k in 0..n
            invariant
                n == trans@.len(),
                trans@ == self.sm.states@[sidx as int].1.transitions@,
                forall|j: int| 0 <= j < k ==> !((#[trigger] trans@[j].trigger) is Immediate),
        {
            if matches!(&trans[k].trigger, Trigger::Immediate) {
                return Ok(StepPlan::Immediate);
            }
        }
        let mut timeout: Option<u64> = None;
        for k in 0..n
            invariant
                n == trans@.len(),
                trans@ == self.sm.states@[sidx as int].1.transitions@,
                forall|j: int| 0 <= j < n ==> !((#[trigger] trans@[j].trigger) is Immediate),
                timeout is None,
                forall|j: int| 0 <= j < k ==> !((#[trigger] trans@[j].trigger) is Timeout),
        {
            match &trans[k].trigger {
                Trigger::Timeout(ms) => {
                    proof {
                        lemma_first_timeout(trans@);
                    }
                    return Ok(StepPlan::WaitInput { timeout: Some(*ms) });
                },
                _ => {},
            }
        }
        proof {
            lemma_first_timeout(trans@);
        }
        Ok(StepPlan::WaitInput { timeout: None })
    }

    /// Whether stepping would do nothing because the job is fatal or was
    /// flagged as looping.
    pub fn step_guarded(&self) -> (r: bool)
        ensures
            r == spec_step_guarded(self.data@),
    {
        self.data.fatal || self.data.has_loop_detected()
    }

    /// The job's config value for `key`, if any.
    pub fn get_job_config_key(&self, key: &str) -> (r: Option<String>)
        ensures
            match r {
                Some(v) => crate::action::spec_cfg_lookup(cfg_view(self.job_config@), key@)
                    == Some(v@),
                None => crate::action::spec_cfg_lookup(cfg_view(self.job_config@), key@) is None,
            },
    {
        match crate::action::cfg_lookup(&self.job_config, key) {
            Some(v) => Some(v.clone()),
            None => None,
        }
    }

    /// Requests graceful termination: immediate at idle, deferred to the
    /// next idle boundary otherwise.
    pub fn flag_restart(&mut self, now: i64) -> (r: RestartDecision)
        ensures
            old(self).data@.spec_status(now as int).spec_is_idle() ==> (r
                == RestartDecision::RestartNow && *final(self) == *old(self)),
            !old(self).data@.spec_status(now as int).spec_is_idle() ==> (r
                == RestartDecision::Deferred && *final(self) == (JobRuntime {
                shutdown_requested: true,
                ..*old(self)
            })),
    {
        if self.data.get_status(now).is_idle() {
            RestartDecision::RestartNow
        } else {
            self.shutdown_requested = true;
            RestartDecision::Deferred
        }
    }

    /// Whether a deferred restart request may now terminate the process.
    pub fn should_restart(&self, now: i64) -> (r: bool)
        ensures
            r == (self.shutdown_requested && self.data@.spec_status(now as int).spec_is_idle()),
    {
        self.shutdown_requested && self.data.get_status(now).is_idle()
    }
}

/// The first `Timeout` trigger's milliseconds, in declaration order.
pub open spec fn spec_first_timeout(trans: Seq<Transition>) -> Option<int>
    decreases trans.len(),
{
    if trans.len() == 0 {
        None
    } else {
        match trans.first().trigger {
            Trigger::Timeout(ms) => Some(ms as int),
            _ => spec_first_timeout(trans.drop_first()),
        }
    }
}

proof fn lemma_first_timeout(trans: Seq<Transition>)
    ensures
        match spec_first_timeout(trans) {
            Some(ms) => exists|i: int|
                0 <= i < trans.len() && ((#[trigger] trans[i].trigger) matches Trigger::Timeout(m)
                    && m as int == ms) && (forall|j: int|
                    0 <= j < i ==> !(trans[j].trigger is Timeout)),
            None => forall|j: int| 0 <= j < trans.len() ==> !((#[trigger] trans[j].trigger) is Timeout),
        },
    decreases trans.len(),
{
    if trans.len() > 0 {
        lemma_first_timeout(trans.drop_first());
        let rest = trans.drop_first();
        assert(forall|j: int| 0 <= j < rest.len() ==> #[trigger] rest[j] == trans[j + 1]);
        match trans.first().trigger {
            Trigger::Timeout(ms) => {
                assert(trans[0].trigger matches Trigger::Timeout(m) && m as int == ms as int);
            },
            _ => {
                match spec_first_timeout(rest) {
                    Some(ms) => {
                        let i = choose|i: int|
                            0 <= i < rest.len() && ((#[trigger] rest[i].trigger) matches
                                Trigger::Timeout(m) && m as int == ms) && (forall|j: int|
                                0 <= j < i ==> !(rest[j].trigger is Timeout));
                        assert(trans[i + 1].trigger matches Trigger::Timeout(m) && m as int == ms);
                        assert forall|j: int| 0 <= j < i + 1 implies !(trans[j].trigger is Timeout) by {
                            if j > 0 {
                                assert(!(rest[j - 1].trigger is Timeout));
                            }
                        }
                    },
                    None => {
                        assert forall|j: int|
                            0 <= j < trans.len() implies !((#[trigger] trans[j].trigger) is Timeout) by {
                            if j > 0 {
                                assert(!(rest[j - 1].trigger is Timeout));
                            }
                        }
                    },
                }
            },
        }
    }
}

/// Every state's count in a well-formed runtime's history is at most six:
/// five re-entries, plus the loop-detection forced transition.
pub proof fn lemma_history_bound(rt: JobRuntime, name: Seq<char>)
    requires
        rt.wf(),
    ensures
        spec_history_count(rt.data@.state_history, name) <= 6,
{
}

/// Resetting twice in succession leaves the very record one reset leaves.
pub proof fn lemma_runtime_reset_idempotent(label: Seq<char>, now: int)
    ensures
        spec_after_reset(spec_after_reset(label, now).label, now) == spec_after_reset(label, now),
{
}

impl JobRuntime {
    /// Advances exactly one transition on the given occasion.
    ///
    /// A fatal or loop-flagged job is not stepped: the call returns no
    /// effects and changes nothing. Otherwise the first transition of the
    /// current state accepting the event is executed as
    /// [`spec_apply_transition`] describes; every failure marks the job
    /// fatal. On success the state before and after are both keys of the
    /// machine, and the state after is the executed transition's target
    /// unless loop detection fired, in which case it is `EndJob`.
    #[verifier::rlimit(100)]
    #[verifier::loop_isolation(false)]
    pub fn step_event(&mut self, ev: &StepEvent, now: i64) -> (r: Result<Vec<Effect>, StepError>)
        requires
            old(self).wf(),
        ensures
            final(self).wf(),
            final(self).sm == old(self).sm,
            final(self).job_config == old(self).job_config,
            final(self).shutdown_requested == old(self).shutdown_requested,
            ({
                let d0 = old(self).data@;
                let cfgv = cfg_view(old(self).job_config@);
                let sidx = spec_state_index(old(self).sm.states@, old(self).current@);
                match r {
                    Ok(effs) => {
                        if spec_step_guarded(d0) {
                            *final(self) == *old(self) && effs@.len() == 0
                        } else {
                            &&& sidx is Some
                            &&& ({
                                let trans = old(self).sm.states@[sidx->0].1.transitions@;
                                let ridx = spec_resolve(trans, *ev);
                                &&& ridx is Some
                                &&& ({
                                    let ap = spec_apply_transition(trans[ridx->0], d0, cfgv, now as int);
                                    &&& ap is Ok
                                    &&& final(self).current@ == ap->Ok_0.current
                                    &&& final(self).data@ == ap->Ok_0.data
                                    &&& effv(effs@) == ap->Ok_0.effects
                                    &&& spec_has_state(old(self).sm.states@, old(self).current@)
                                    &&& spec_has_state(old(self).sm.states@, final(self).current@)
                                })
                            })
                        }
                    },
                    Err(StepError::UnknownState(nm)) => {
                        &&& !spec_step_guarded(d0)
                        &&& sidx is None
                        &&& nm@ == old(self).current@
                        &&& final(self).current == old(self).current
                        &&& final(self).data@ == (JobDataV { fatal: true, ..d0 })
                    },
                    Err(StepError::TransitionAmbiguity) => {
                        &&& !spec_step_guarded(d0)
                        &&& sidx is Some
                        &&& spec_resolve(old(self).sm.states@[sidx->0].1.transitions@, *ev) is None
                        &&& final(self).current == old(self).current
                        &&& final(self).data@ == (JobDataV { fatal: true, ..d0 })
                    },
                    Err(StepError::Action(ActionError::BadControlChar(c))) => {
                        &&& !spec_step_guarded(d0)
                        &&& sidx is Some
                        &&& ({
                            let trans = old(self).sm.states@[sidx->0].1.transitions@;
                            let ridx = spec_resolve(trans, *ev);
                            &&& ridx is Some
                            &&& spec_run_list(
                                trans[ridx->0].actions@,
                                d0.spec_update(
                                    UpdateV::JobStageTransition(now as int, trans[ridx->0].target@),
                                ),
                                cfgv,
                                now as int,
                            ) == Err::<(JobDataV, Seq<EffectV>), char>(c)
                            &&& final(self).current@ == trans[ridx->0].target@
                            &&& final(self).data@.fatal == true
                            &&& final(self).data@.state_history == d0.state_history.push(
                                (now as int, trans[ridx->0].target@),
                            )
                        })
                    },
                }
            }),
    {
        if self.data.fatal || self.data.has_loop_detected() {
            return Ok(Vec::new());
        }
        let ghost d0 = self.data@;
        let sidx = match self.sm.state_index(self.current.as_str()) {
            Some(i) => i,
            None => {
                self.data.fatal = true;
                return Err(StepError::UnknownState(self.current.clone()));
            },
        };
        proof {
            lemma_state_index(self.sm.states@, self.current@);
        }
        let ridx = match resolve_index(&self.sm.states[sidx].1.transitions, ev) {
            Some(k) => k,
            None => {
                self.data.fatal = true;
                return Err(StepError::TransitionAmbiguity);
            },
        };
        proof {
            lemma_resolve(self.sm.states@[sidx as int].1.transitions@, *ev);
        }
        let ghost tr = self.sm.states@[sidx as int].1.transitions@[ridx as int];
        let target = self.sm.states[sidx].1.transitions[ridx].target.clone();
        self.current = target.clone();
        self.data.update(JobUpdate::JobStageTransition(now, target.clone()));
        let ghost d1 = self.data@;
        let mut out: Vec<Effect> = Vec::new();
        out.push(Effect::Update(JobUpdate::JobStageTransition(now, target)));
        proof {
            assert(d1 == d0.spec_update(UpdateV::JobStageTransition(now as int, tr.target@)));
            assert(effv(out@) =~= seq![
                EffectV::Update(UpdateV::JobStageTransition(now as int, tr.target@)),
            ]);
        }
        match run_action_list(
            &self.sm.states[sidx].1.transitions[ridx].actions,
            &mut self.data,
            &self.job_config,
            now,
            &mut out,
        ) {
            Ok(()) => {},
            Err(e) => {
                self.data.fatal = true;
                proof {
                    lemma_count_push_all(d0.state_history, (now as int, tr.target@));
                }
                return Err(StepError::Action(e));
            },
        }
        let ghost d2 = self.data@;
        let ghost effs = (spec_run_list(
            tr.actions@,
            d1,
            cfg_view(self.job_config@),
            now as int,
        ))->Ok_0.1;
        proof {
            assert(effv(out@) =~= seq![
                EffectV::Update(UpdateV::JobStageTransition(now as int, tr.target@)),
            ] + effs);
        }
        let cnt = count_history(&self.data.state_history, &self.current);
        proof {
            assert(crate::job::hist_view(self.data.state_history@) == d2.state_history);
            lemma_count_push_all(d0.state_history, (now as int, tr.target@));
        }
        if cnt > 5 {
            self.data.update(JobUpdate::JobNewInfoItem(DeviceInformation::LoopDetected));
            out.push(Effect::Update(JobUpdate::JobNewInfoItem(DeviceInformation::LoopDetected)));
            let endjob = String::from_str("EndJob");
            if !(self.current == endjob) {
                let endjob2 = endjob.clone();
                self.current = endjob;
                self.data.update(JobUpdate::JobStageTransition(now, endjob2.clone()));
                out.push(Effect::Update(JobUpdate::JobStageTransition(now, endjob2)));
                proof {
                    let ap = spec_apply_transition(tr, d0, cfg_view(self.job_config@), now as int);
                    assert(ap is Ok);
                    assert(self.data@ == ap->Ok_0.data);
                    assert(effv(out@) =~= ap->Ok_0.effects);
                    lemma_count_push_all(d2.state_history, (now as int, "EndJob"@));
                    assert(spec_has_state(self.sm.states@, "EndJob"@));
                    let items = self.data@.info_items;
                    assert(items.last() is LoopDetected);
                    assert(spec_has_loop_detected(items));
                    assert forall|n: Seq<char>|
                        #[trigger] spec_history_count(self.data@.state_history, n) <= 6 by {
                        assert(spec_history_count(d0.state_history, n) <= 5);
                    }
                }
            } else {
                proof {
                    let ap = spec_apply_transition(tr, d0, cfg_view(self.job_config@), now as int);
                    assert(ap is Ok);
                    assert(self.data@ == ap->Ok_0.data);
                    assert(effv(out@) =~= ap->Ok_0.effects);
                    assert(spec_has_state(self.sm.states@, "EndJob"@));
                    let items = self.data@.info_items;
                    assert(items.last() is LoopDetected);
                    assert(spec_has_loop_detected(items));
                    assert forall|n: Seq<char>|
                        #[trigger] spec_history_count(self.data@.state_history, n) <= 6 by {
                        assert(spec_history_count(d0.state_history, n) <= 5);
                    }
                }
            }
        } else {
            proof {
                let ap = spec_apply_transition(tr, d0, cfg_view(self.job_config@), now as int);
                assert(ap is Ok);
                assert(self.data@ == ap->Ok_0.data);
                assert(effv(out@) =~= ap->Ok_0.effects);
                assert(spec_has_state(self.sm.states@, tr.target@));
                assert forall|n: Seq<char>|
                    #[trigger] spec_history_count(self.data@.state_history, n) <= 5 by {
                    if n == tr.target@ {
                        assert(spec_history_count(self.data@.state_history, n) == cnt as int);
                    } else {
                        assert(spec_history_count(d0.state_history, n) <= 5);
                    }
                }
            }
        }
        Ok(out)
    }
}

/// Appending an entry keeps every other name's count and raises the
/// entry's name's count by one.
proof fn lemma_count_push_all(hist: Seq<(int, Seq<char>)>, e: (int, Seq<char>))
    ensures
        forall|n: Seq<char>|
            #[trigger] spec_history_count(hist.push(e), n) == spec_history_count(hist, n) + if e.1
                == n {
                1int
            } else {
                0int
            },
{
    assert forall|n: Seq<char>|
        #[trigger] spec_history_count(hist.push(e), n) == spec_history_count(hist, n) + if e.1
            == n {
            1int
        } else {
            0int
        } by {
        lemma_history_count_push(hist, e, n);
    }
}

} // verus!
