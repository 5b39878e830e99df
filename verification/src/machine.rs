//! Carrying out a script of steps: which step comes next, and what each answer of the
//! target leads to. A fatal failure turns the machine round: it then asks for the removal
//! of every path that it had created, the last one first.

use crate::target::{step_path, steps_view, IoCause, Outcome, Step, StepView};
use vstd::prelude::*;

verus! {

/// Where the carrying out of a script stands.
#[derive(Clone, Copy, Debug, PartialEq, Eq, Structural)]
pub enum Phase {
    /// Steps of the script are being applied.
    Applying,
    /// A step failed; what was created is being removed.
    RollingBack,
    /// Every step was applied.
    Installed,
    /// A step failed, and the removal of what was created is over.
    Failed,
}

/// The views of a sequence of paths.
pub open spec fn paths_view(paths: Seq<Vec<u8>>) -> Seq<Seq<u8>> {
    paths.map_values(|p: Vec<u8>| p@)
}

/// The state of a machine as the contracts see it.
pub struct MachineView {
    /// The steps to apply.
    pub script: Seq<StepView>,
    /// How many steps have been answered.
    pub pos: nat,
    /// The paths that were written or made, in the order of their creation, that have not
    /// been removed again.
    pub created: Seq<Seq<u8>>,
    /// The paths whose metadata could not be applied.
    pub unapplied: Seq<Seq<u8>>,
    pub phase: Phase,
    /// The path and cause of the fatal failure, once there is one.
    pub failure: Option<(Seq<u8>, IoCause)>,
    /// The created paths that could not be removed again.
    pub unremoved: Seq<Seq<u8>>,
}

/// A machine asks for a step only where there is one.
pub open spec fn machine_wf(m: MachineView) -> bool {
    &&& m.pos <= m.script.len()
    &&& (m.phase == Phase::Applying ==> m.pos < m.script.len())
    &&& (m.phase == Phase::Installed ==> m.pos == m.script.len())
    &&& (m.phase == Phase::RollingBack ==> m.created.len() > 0)
}

/// The machine before the first step of `script`.
pub open spec fn machine_start(script: Seq<StepView>) -> MachineView {
    MachineView {
        script,
        pos: 0,
        created: Seq::empty(),
        unapplied: Seq::empty(),
        phase: if script.len() == 0 {
            Phase::Installed
        } else {
            Phase::Applying
        },
        failure: None,
        unremoved: Seq::empty(),
    }
}

/// The step that the machine asks for, if it asks for one.
pub open spec fn machine_next(m: MachineView) -> Option<StepView> {
    match m.phase {
        Phase::Applying => Some(m.script[m.pos as int]),
        Phase::RollingBack => Some(StepView::Remove { path: m.created.last() }),
        _ => None,
    }
}

/// Whether an answer to a step means that the step's path now holds what this install put
/// there.
pub open spec fn creates(step: StepView, outcome: Outcome) -> bool {
    match step {
        StepView::EnsureDir { .. } => outcome == Outcome::Done,
        StepView::WriteFile { .. } => !(outcome is Failed),
        _ => false,
    }
}

/// The machine with one more step answered.
pub open spec fn advanced(m: MachineView) -> MachineView {
    MachineView {
        pos: m.pos + 1,
        phase: if m.pos + 1 == m.script.len() {
            Phase::Installed
        } else {
            Phase::Applying
        },
        ..m
    }
}

/// The machine after the target's answer to the step that it asked for. Metadata that
/// cannot be applied is noted and the script goes on; any other failure is fatal.
pub open spec fn machine_record(m: MachineView, outcome: Outcome) -> MachineView {
    match m.phase {
        Phase::Applying => {
            let step = m.script[m.pos as int];
            match outcome {
                Outcome::Failed(cause) => if step is SetMeta {
                    advanced(MachineView { unapplied: m.unapplied.push(step_path(step)), ..m })
                } else {
                    MachineView {
                        phase: if m.created.len() == 0 {
                            Phase::Failed
                        } else {
                            Phase::RollingBack
                        },
                        failure: Some((step_path(step), cause)),
                        ..m
                    }
                },
                _ => if creates(step, outcome) {
                    advanced(MachineView { created: m.created.push(step_path(step)), ..m })
                } else {
                    advanced(m)
                },
            }
        },
        Phase::RollingBack => MachineView {
            created: m.created.drop_last(),
            unremoved: if outcome is Failed {
                m.unremoved.push(m.created.last())
            } else {
                m.unremoved
            },
            phase: if m.created.len() == 1 {
                Phase::Failed
            } else {
                Phase::RollingBack
            },
            ..m
        },
        _ => m,
    }
}

/// How many answers the machine can still take, at most.
pub open spec fn machine_measure(m: MachineView) -> nat {
    match m.phase {
        Phase::Applying => (2 * (m.script.len() - m.pos) + m.created.len() + 1) as nat,
        Phase::RollingBack => m.created.len(),
        _ => 0,
    }
}

/// Each answer keeps the machine well formed and brings it nearer to its end.
pub proof fn lemma_record(m: MachineView, outcome: Outcome)
    requires
        machine_wf(m),
    ensures
        machine_wf(machine_record(m, outcome)),
        machine_next(m) is Some ==> machine_measure(machine_record(m, outcome)) < machine_measure(
            m,
        ),
        machine_record(m, outcome).script == m.script,
{
}

/// The carrying out of a script, one answer after the other.
pub struct Machine {
    script: Vec<Step>,
    pos: usize,
    created: Vec<Vec<u8>>,
    unapplied: Vec<Vec<u8>>,
    phase: Phase,
    failure: Option<(Vec<u8>, IoCause)>,
    unremoved: Vec<Vec<u8>>,
}

impl View for Machine {
    type V = MachineView;

    closed spec fn view(&self) -> MachineView {
        MachineView {
            script: steps_view(self.script@),
            pos: self.pos as nat,
            created: paths_view(self.created@),
            unapplied: paths_view(self.unapplied@),
            phase: self.phase,
            failure: match self.failure {
                Some((path, cause)) => Some((path@, cause)),
                None => None,
            },
            unremoved: paths_view(self.unremoved@),
        }
    }
}

fn copy_path(path: &Vec<u8>) -> (r: Vec<u8>)
    ensures
        r@ == path@,
{
    path.clone()
}

fn copy_paths(paths: &Vec<Vec<u8>>) -> (r: Vec<Vec<u8>>)
    ensures
        paths_view(r@) == paths_view(paths@),
{
    let mut r: Vec<Vec<u8>> = Vec::new();
    let mut i: usize = 0;
    while i < paths.len()
        invariant
            i <= paths@.len(),
            r@.len() == i,
            forall|k: int| 0 <= k < i ==> (#[trigger] r@[k])@ == paths@[k]@,
        decreases paths@.len() - i,
    {
        r.push(copy_path(&paths[i]));
        i += 1;
    }
    assert(paths_view(r@) =~= paths_view(paths@));
    r
}

impl Machine {
    #[verifier::type_invariant]
    spec fn well_formed(&self) -> bool {
        machine_wf(self@)
    }

    /// The machine before the first step of `script`.
    pub fn start(script: Vec<Step>) -> (m: Machine)
        ensures
            m@ == machine_start(steps_view(script@)),
            machine_wf(m@),
    {
        let phase = if script.len() == 0 {
            Phase::Installed
        } else {
            Phase::Applying
        };
        let m = Machine {
            script,
            pos: 0,
            created: Vec::new(),
            unapplied: Vec::new(),
            phase,
            failure: None,
            unremoved: Vec::new(),
        };
        proof {
            assert(paths_view(m.created@) =~= Seq::empty());
            assert(paths_view(m.unapplied@) =~= Seq::empty());
            assert(paths_view(m.unremoved@) =~= Seq::empty());
        }
        m
    }

    /// Where the machine stands.
    pub fn phase(&self) -> (p: Phase)
        ensures
            p == self@.phase,
    {
        self.phase
    }

    /// The step that the machine asks for: see [`machine_next`].
    pub fn next_step(&self) -> (r: Option<Step>)
        ensures
            match r {
                Some(step) => machine_next(self@) == Some(step@),
                None => machine_next(self@) is None,
            },
            machine_wf(self@),
    {
        proof {
            use_type_invariant(self);
        }
        match self.phase {
            Phase::Applying => Some(self.script[self.pos].duplicate()),
            Phase::RollingBack => {
                let last = &self.created[self.created.len() - 1];
                Some(Step::Remove { path: copy_path(last) })
            },
            _ => None,
        }
    }

    /// The paths whose metadata could not be applied.
    pub fn unapplied(&self) -> (r: Vec<Vec<u8>>)
        ensures
            paths_view(r@) == self@.unapplied,
    {
        copy_paths(&self.unapplied)
    }

    /// The created paths that could not be removed again.
    pub fn unremoved(&self) -> (r: Vec<Vec<u8>>)
        ensures
            paths_view(r@) == self@.unremoved,
    {
        copy_paths(&self.unremoved)
    }

    /// The path and cause of the fatal failure, once there is one.
    pub fn failure(&self) -> (r: Option<(Vec<u8>, IoCause)>)
        ensures
            match r {
                Some((path, cause)) => self@.failure == Some((path@, cause)),
                None => self@.failure is None,
            },
    {
        match &self.failure {
            Some((path, cause)) => Some((copy_path(path), *cause)),
            None => None,
        }
    }

    /// Takes the target's answer to the step that the machine asked for: see
    /// [`machine_record`].
    pub fn record(self, outcome: Outcome) -> (m: Machine)
        ensures
            m@ == machine_record(self@, outcome),
            machine_wf(m@),
    {
        proof {
            use_type_invariant(&self);
            lemma_record(self@, outcome);
        }
        let ghost before = self@;
        let Machine {
            script,
            pos,
            mut created,
            mut unapplied,
            phase,
            failure,
            mut unremoved,
        } = self;
        assert(before.script.len() == script@.len());
        assert(before.pos == pos);
        match phase {
            Phase::Applying => {
                let n = script.len();
                let step = &script[pos];
                let path = copy_path(step.path());
                let is_meta = match step {
                    Step::SetMeta { .. } => true,
                    _ => false,
                };
                let makes = match step {
                    Step::EnsureDir { .. } => match outcome {
                        Outcome::Done => true,
                        _ => false,
                    },
                    Step::WriteFile { .. } => match outcome {
                        Outcome::Failed(_) => false,
                        _ => true,
                    },
                    _ => false,
                };
                assert(makes == creates(step@, outcome));
                match outcome {
                    Outcome::Failed(c) => {
                        if is_meta {
                            unapplied.push(path);
                            assert(paths_view(unapplied@) =~= before.unapplied.push(
                                step_path(step@),
                            ));
                            let next = if pos + 1 == n {
                                Phase::Installed
                            } else {
                                Phase::Applying
                            };
                            Machine {
                                script,
                                pos: pos + 1,
                                created,
                                unapplied,
                                phase: next,
                                failure,
                                unremoved,
                            }
                        } else {
                            let next = if created.len() == 0 {
                                Phase::Failed
                            } else {
                                Phase::RollingBack
                            };
                            Machine {
                                script,
                                pos,
                                created,
                                unapplied,
                                phase: next,
                                failure: Some((path, c)),
                                unremoved,
                            }
                        }
                    },
                    _ => {
                        if makes {
                            created.push(path);
                            assert(paths_view(created@) =~= before.created.push(step_path(step@)));
                        }
                        let next = if pos + 1 == n {
                            Phase::Installed
                        } else {
                            Phase::Applying
                        };
                        Machine {
                            script,
                            pos: pos + 1,
                            created,
                            unapplied,
                            phase: next,
                            failure,
                            unremoved,
                        }
                    },
                }
            },
            Phase::RollingBack => {
                let last = created.pop().unwrap();
                assert(paths_view(created@) =~= before.created.drop_last());
                assert(last@ == before.created.last());
                match outcome {
                    Outcome::Failed(_) => {
                        unremoved.push(last);
                        assert(paths_view(unremoved@) =~= before.unremoved.push(
                            before.created.last(),
                        ));
                    },
                    _ => {},
                }
                let next = if created.len() == 0 {
                    Phase::Failed
                } else {
                    Phase::RollingBack
                };
                Machine {
                    script,
                    pos,
                    created,
                    unapplied,
                    phase: next,
                    failure,
                    unremoved,
                }
            },
            _ => Machine { script, pos, created, unapplied, phase, failure, unremoved },
        }
    }
}

} // verus!
