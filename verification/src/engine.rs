//! The run protocol: acquire lock, ensure control table, read applied set,
//! compute plan, execute steps one transaction each, release lock. The engine
//! is a state machine; the host performs each emitted action against the
//! database and hands the outcome back. Suspension happens only in the host,
//! so within a run the actions are strictly ordered, and every step-executing
//! action is emitted while the advisory lock is held.

use vstd::prelude::*;
use crate::error::Error;
use crate::graph::Graph;
use crate::migration::MigrationId;
use crate::plan::{
    applied_flags, compute_plan, dependency_blocks, fetch_error_warranted, flags_of,
    plan_for_request, Direction, Request, Step,
};

verus! {

/// Where the run stands: which outside action is outstanding.
#[derive(Clone, Copy, PartialEq, Eq, Structural, Debug)]
pub enum Phase {
    /// Nothing issued yet.
    Start,
    /// Waiting for the advisory lock.
    Locking,
    /// Creating the control table if absent.
    EnsuringTable,
    /// Reading the applied set.
    Fetching,
    /// Opening the transaction of the current step.
    Beginning,
    /// Running one operation of the current step.
    Running,
    /// Writing the control-table record of the current step.
    Recording,
    /// Committing the current step's transaction.
    Committing,
    /// Rolling back the current step's transaction after a failure.
    RollingBack,
    /// Releasing the advisory lock.
    Unlocking,
    /// The run is over.
    Finished,
}

/// What the engine asks the host to do next against the database.
pub enum EngineAction {
    /// Take the advisory lock for this database, blocking.
    AcquireLock,
    /// Create the control table if absent.
    EnsureTable,
    /// Read the applied identities from the control table.
    FetchApplied,
    /// Open a transaction for the step.
    BeginStep,
    /// Execute one operation of a step's migration, in the step's direction.
    RunOperation {
        /// Index of the step in the plan.
        step: usize,
        /// Position of the operation within the migration.
        op: usize,
    },
    /// Insert the applied record for the step's migration, inside the open
    /// transaction.
    RecordApplied {
        /// Index of the step in the plan.
        step: usize,
    },
    /// Delete the applied record for the step's migration, inside the open
    /// transaction.
    RecordReverted {
        /// Index of the step in the plan.
        step: usize,
    },
    /// Commit the step's transaction.
    CommitStep,
    /// Roll back the step's transaction.
    RollbackStep,
    /// Release the advisory lock.
    ReleaseLock,
    /// Nothing further: the run is over.
    Stop,
}

/// What came back from the last action the host performed.
pub enum RunEvent {
    /// Start the run.
    Kick,
    /// The outstanding action succeeded.
    Succeeded,
    /// The outstanding action failed in the storage collaborator.
    Failed {
        /// Collaborator-reported kind.
        kind: String,
        /// Collaborator-reported message.
        message: String,
    },
    /// The applied identities, answering a fetch.
    Fetched(Vec<MigrationId>),
}

/// Actions that touch the schema or the control table: exactly these must
/// happen under the advisory lock.
pub open spec fn is_step_action(a: EngineAction) -> bool {
    ||| a is BeginStep
    ||| a is RunOperation
    ||| a is RecordApplied
    ||| a is RecordReverted
    ||| a is CommitStep
    ||| a is RollbackStep
}

/// Direction of the plan step at position `k`.
pub open spec fn step_dir(run: Run, k: int) -> Direction {
    run.plan@[k].dir
}

/// Operation count of the migration the plan step at position `k` names.
pub open spec fn op_count_at(run: Run, k: int) -> nat {
    run.graph.nodes_seq()[run.plan@[k].node as int].op_count as nat
}

/// The record action matching a step's direction: insert on apply, delete on
/// revert, for exactly that step.
pub open spec fn record_action_ok(a: EngineAction, step: usize, dir: Direction) -> bool {
    if dir is Up {
        a matches EngineAction::RecordApplied { step: s } && s == step
    } else {
        a matches EngineAction::RecordReverted { step: s } && s == step
    }
}

/// One engine run over a validated graph.
pub struct Run {
    /// The validated dependency graph.
    pub graph: Graph,
    /// What the operator asked for.
    pub request: Request,
    /// Which outside action is outstanding.
    pub phase: Phase,
    /// Whether the advisory lock is held.
    pub lock_held: bool,
    /// Applied flags, as read under the lock and updated on each commit.
    pub applied: Vec<bool>,
    /// The computed plan.
    pub plan: Vec<Step>,
    /// Index of the current step.
    pub step: usize,
    /// Index of the current operation within the step.
    pub op: usize,
    /// The failure that ended the run early, if any.
    pub failure: Option<Error>,
    /// The plan step whose execution failed, if any.
    pub failed_step: Option<usize>,
    /// The operation index at which that step failed, when an operation
    /// (rather than its record or commit) was at fault.
    pub failed_op: Option<usize>,
    /// A lock-release failure: reported, but it does not overturn an
    /// otherwise successful run.
    pub release_failure: Option<Error>,
}

impl Run {
    /// Structural invariant of a run.
    pub open spec fn wf(&self) -> bool {
        &&& self.graph.wf()
        &&& self.applied@.len() == self.graph.nodes_seq().len()
        &&& forall|k: int|
            0 <= k < self.plan@.len() ==> (#[trigger] self.plan@[k]).node
                < self.graph.nodes_seq().len()
        &&& (self.phase is Beginning || self.phase is Running || self.phase is Recording
            || self.phase is Committing || self.phase is RollingBack) ==> self.lock_held
            && self.step < self.plan@.len()
        &&& (self.phase is Running) ==> (self.op as nat) < op_count_at(*self, self.step as int)
        &&& (self.phase is EnsuringTable || self.phase is Fetching) ==> self.lock_held
        &&& (self.phase is Start || self.phase is Locking || self.phase is Finished)
            ==> !self.lock_held
    }

    /// Begin a run: nothing issued, lock not held, no flags set, empty plan.
    pub fn new(graph: Graph, request: Request) -> (r: Run)
        requires
            graph.wf(),
        ensures
            r.wf(),
            r.graph == graph,
            r.request == request,
            r.phase is Start,
            !r.lock_held,
            r.applied@.len() == graph.nodes_seq().len(),
            forall|i: int| 0 <= i < r.applied@.len() ==> !r.applied@[i],
            r.plan@.len() == 0,
            r.step == 0,
            r.op == 0,
            r.failure is None,
            r.failed_step is None,
            r.failed_op is None,
            r.release_failure is None,
    {
        let n = graph.node_count();
        let mut applied: Vec<bool> = Vec::new();
        let mut i: usize = 0;
        while i < n
            invariant
                i <= n,
                applied@.len() == i,
                forall|k: int| 0 <= k < i ==> !applied@[k],
            decreases n - i,
        {
            applied.push(false);
            i = i + 1;
        }
        Run {
            graph,
            request,
            phase: Phase::Start,
            lock_held: false,
            applied,
            plan: Vec::new(),
            step: 0,
            op: 0,
            failure: None,
            failed_step: None,
            failed_op: None,
            release_failure: None,
        }
    }

    /// Feed the outcome of the last action in and get the next action out.
    ///
    /// The contract fixes the transition relation: lock-acquire precedes the
    /// applied-set read, which precedes plan computation, which precedes any
    /// step execution, which precedes lock-release. Within a step, the
    /// operations run in declared order, the record write follows them inside
    /// the same transaction, and the commit follows the record. An operation,
    /// record or commit failure rolls the step back, remembers which step
    /// (and operation) failed, and releases the lock without touching any
    /// later step.
    pub fn advance(self, event: RunEvent) -> (r: (Run, EngineAction))
        requires
            self.wf(),
        ensures
            r.0.wf(),
            // what never changes
            r.0.graph == self.graph,
            r.0.request == self.request,
            !(self.phase is Fetching) ==> r.0.plan@ == self.plan@,
            // lock discipline
            is_step_action(r.1) ==> r.0.lock_held && self.lock_held,
            r.1 is FetchApplied ==> r.0.lock_held,
            r.1 is ReleaseLock ==> self.lock_held,
            r.0.lock_held ==> self.lock_held || (self.phase is Locking && event is Succeeded),
            // the applied flags change only on a fetch or a successful commit
            !(self.phase is Committing) && !(self.phase is Fetching) ==> r.0.applied@
                == self.applied@,
            self.phase is Committing && event is Succeeded ==> r.0.applied@
                == self.applied@.update(
                self.plan@[self.step as int].node as int,
                self.plan@[self.step as int].dir is Up,
            ),
            // failure bookkeeping is sticky
            (event is Kick || event is Succeeded) ==> r.0.failure == self.failure,
            !(self.phase is Unlocking && event is Failed) ==> r.0.release_failure
                == self.release_failure,
            (event is Kick || event is Succeeded || event is Fetched) ==> r.0.failed_step
                == self.failed_step && r.0.failed_op == self.failed_op,
            // the transition relation, pair by pair
            self.phase is Start && event is Kick ==> r.0.phase is Locking && r.1 is AcquireLock
                && !r.0.lock_held,
            self.phase is Locking && event is Succeeded ==> r.0.phase is EnsuringTable
                && r.1 is EnsureTable && r.0.lock_held,
            self.phase is Locking && event is Failed ==> r.0.phase is Finished && r.1 is Stop
                && !r.0.lock_held && (r.0.failure matches Some(f) && f is Lock),
            self.phase is EnsuringTable && event is Succeeded ==> r.0.phase is Fetching
                && r.1 is FetchApplied,
            self.phase is EnsuringTable && event is Failed ==> r.0.phase is Unlocking
                && r.1 is ReleaseLock && (r.0.failure matches Some(f) && f is Storage),
            self.phase is Fetching && event is Failed ==> r.0.phase is Unlocking
                && r.1 is ReleaseLock && (r.0.failure matches Some(f) && f is Storage),
            // reading the applied set: flags and plan are exactly what
            // `applied_flags` and `compute_plan` fix, or a warranted error
            self.phase is Fetching ==> (event matches RunEvent::Fetched(ids) ==> ({
                ||| (r.0.phase is Unlocking && r.1 is ReleaseLock && r.0.failure is Some
                    && fetch_error_warranted(
                    self.graph.nodes_seq(),
                    self.graph.parents_seq(),
                    self.request,
                    ids@,
                ))
                ||| (flags_of(self.graph.nodes_seq(), ids@, r.0.applied@) && plan_for_request(
                    self.graph,
                    r.0.applied@,
                    self.request,
                    r.0.plan@,
                ) && r.0.step == 0 && r.0.failure == self.failure && ((r.0.plan@.len() == 0
                    && r.0.phase is Unlocking && r.1 is ReleaseLock) || (r.0.plan@.len() > 0
                    && r.0.phase is Beginning && r.1 is BeginStep)))
            })),
            // executing one step: begin, operations in declared order, the
            // matching record write, then commit
            self.phase is Beginning && event is Succeeded && op_count_at(self, self.step as int)
                == 0 ==> r.0.phase is Recording && r.0.step == self.step && record_action_ok(
                r.1,
                self.step,
                step_dir(self, self.step as int),
            ),
            self.phase is Beginning && event is Succeeded && op_count_at(self, self.step as int)
                > 0 ==> r.0.phase is Running && r.0.step == self.step && r.0.op == 0 && (
            r.1 matches EngineAction::RunOperation { step: s, op: o } && s == self.step && o == 0),
            self.phase is Beginning && event is Failed ==> r.0.phase is Unlocking
                && r.1 is ReleaseLock && (r.0.failure matches Some(f) && f is Storage),
            self.phase is Running && event is Succeeded && self.op + 1 < op_count_at(
                self,
                self.step as int,
            ) ==> r.0.phase is Running && r.0.step == self.step && r.0.op == self.op + 1 && (
            r.1 matches EngineAction::RunOperation { step: s, op: o } && s == self.step && o
                == self.op + 1),
            self.phase is Running && event is Succeeded && self.op + 1 >= op_count_at(
                self,
                self.step as int,
            ) ==> r.0.phase is Recording && r.0.step == self.step && record_action_ok(
                r.1,
                self.step,
                step_dir(self, self.step as int),
            ),
            self.phase is Recording && event is Succeeded ==> r.0.phase is Committing
                && r.1 is CommitStep && r.0.step == self.step,
            self.phase is Committing && event is Succeeded && self.step + 1 < self.plan@.len()
                ==> r.0.phase is Beginning && r.1 is BeginStep && r.0.step == self.step + 1,
            self.phase is Committing && event is Succeeded && self.step + 1 >= self.plan@.len()
                ==> r.0.phase is Unlocking && r.1 is ReleaseLock,
            // a failed operation, record or commit rolls the step back,
            // remembers where the run failed, and reaches no later step
            self.phase is Running && event is Failed ==> r.0.phase is RollingBack
                && r.1 is RollbackStep && (r.0.failure matches Some(f) && f is Storage)
                && r.0.failed_step == Some(self.step) && r.0.failed_op == Some(self.op),
            self.phase is Recording && event is Failed ==> r.0.phase is RollingBack
                && r.1 is RollbackStep && (r.0.failure matches Some(f) && f is Storage)
                && r.0.failed_step == Some(self.step),
            self.phase is Committing && event is Failed ==> r.0.phase is RollingBack
                && r.1 is RollbackStep && (r.0.failure matches Some(f) && f is Storage)
                && r.0.failed_step == Some(self.step),
            self.phase is RollingBack ==> r.0.phase is Unlocking && r.1 is ReleaseLock,
            // the lock is released on every exit path; a release failure is
            // recorded apart and never overturns the run
            self.phase is Unlocking && event is Succeeded ==> r.0.phase is Finished && r.1 is Stop
                && !r.0.lock_held,
            self.phase is Unlocking && event is Failed ==> r.0.phase is Finished && r.1 is Stop
                && !r.0.lock_held && r.0.failure == self.failure && (
            r.0.release_failure matches Some(f) && f is Lock),
    {
        let mut run = self;
        match (run.phase, event) {
            (Phase::Start, RunEvent::Kick) => {
                run.phase = Phase::Locking;
                (run, EngineAction::AcquireLock)
            },
            (Phase::Locking, RunEvent::Succeeded) => {
                run.lock_held = true;
                run.phase = Phase::EnsuringTable;
                (run, EngineAction::EnsureTable)
            },
            (Phase::Locking, RunEvent::Failed { kind: _, message }) => {
                run.failure = Some(Error::Lock { message });
                run.phase = Phase::Finished;
                (run, EngineAction::Stop)
            },
            (Phase::EnsuringTable, RunEvent::Succeeded) => {
                run.phase = Phase::Fetching;
                (run, EngineAction::FetchApplied)
            },
            (Phase::EnsuringTable, RunEvent::Failed { kind, message }) => {
                run.failure = Some(Error::Storage { kind, message });
                run.phase = Phase::Unlocking;
                (run, EngineAction::ReleaseLock)
            },
            (Phase::Fetching, RunEvent::Fetched(ids)) => {
                match applied_flags(&run.graph, &ids) {
                    Err(e) => {
                        if let Error::StateInconsistency(bad) = &e {
                            proof {
                                let k = choose|k: int|
                                    0 <= k < ids@.len() && #[trigger] ids@[k]@ == bad@;
                                assert(crate::graph::unregistered(
                                    run.graph.nodes_seq(),
                                    ids@[k]@,
                                ));
                                assert(fetch_error_warranted(
                                    run.graph.nodes_seq(),
                                    run.graph.parents_seq(),
                                    run.request,
                                    ids@,
                                ));
                            }
                        }
                        run.failure = Some(e);
                        run.phase = Phase::Unlocking;
                        (run, EngineAction::ReleaseLock)
                    },
                    Ok(flags) => {
                        run.applied = flags;
                        match compute_plan(&run.graph, &run.applied, &run.request) {
                            Err(e) => {
                                proof {
                                    if run.request is ApplyAll {
                                    } else if run.request is RevertAll {
                                    }
                                }
                                if let Error::Dependency { target, dependent } = &e {
                                    proof {
                                        let nodes = run.graph.nodes_seq();
                                        let parents = run.graph.parents_seq();
                                        let ti = crate::graph::id_index(nodes, target@);
                                        let d = crate::graph::id_index(nodes, dependent@);
                                        assert(dependency_blocks(
                                            nodes,
                                            parents,
                                            run.applied@,
                                            target@,
                                            dependent@,
                                            ti,
                                            d,
                                        ));
                                        assert(nodes[d].id@ == dependent@);
                                        assert(dependency_blocks(
                                            nodes,
                                            parents,
                                            run.applied@,
                                            target@,
                                            nodes[d].id@,
                                            ti,
                                            d,
                                        ));
                                        assert(flags_of(nodes, ids@, run.applied@));
                                    }
                                }
                                proof {
                                    assert(fetch_error_warranted(
                                        run.graph.nodes_seq(),
                                        run.graph.parents_seq(),
                                        run.request,
                                        ids@,
                                    ));
                                }
                                run.failure = Some(e);
                                run.phase = Phase::Unlocking;
                                (run, EngineAction::ReleaseLock)
                            },
                            Ok(plan) => {
                                proof {
                                    reveal(crate::plan::revert_one_ok);
                                    assert forall|k: int|
                                        0 <= k < plan@.len() implies (#[trigger] plan@[k]).node
                                        < run.graph.nodes_seq().len() by {
                                        if run.request is ApplyAll {
                                        } else if run.request is ApplyUpTo {
                                        } else if run.request is RevertAll {
                                        } else if run.request is RevertTo {
                                        } else {
                                            assert(run.request is RevertOne);
                                        }
                                    }
                                    assert(plan_for_request(
                                        run.graph,
                                        run.applied@,
                                        run.request,
                                        plan@,
                                    )) by {
                                        if run.request is ApplyAll {
                                        } else if run.request is ApplyUpTo {
                                        } else if run.request is RevertAll {
                                        } else if run.request is RevertTo {
                                        } else {
                                            assert(run.request is RevertOne);
                                        }
                                    }
                                }
                                run.plan = plan;
                                run.step = 0;
                                if run.plan.len() == 0 {
                                    run.phase = Phase::Unlocking;
                                    (run, EngineAction::ReleaseLock)
                                } else {
                                    run.phase = Phase::Beginning;
                                    (run, EngineAction::BeginStep)
                                }
                            },
                        }
                    },
                }
            },
            (Phase::Fetching, RunEvent::Failed { kind, message }) => {
                run.failure = Some(Error::Storage { kind, message });
                run.phase = Phase::Unlocking;
                (run, EngineAction::ReleaseLock)
            },
            (Phase::Beginning, RunEvent::Succeeded) => {
                let node = run.plan[run.step].node;
                let count = run.graph.node_at(node).op_count;
                let cur = run.step;
                if count == 0 {
                    run.phase = Phase::Recording;
                    match run.plan[cur].dir {
                        Direction::Up => (run, EngineAction::RecordApplied { step: cur }),
                        Direction::Down => (run, EngineAction::RecordReverted { step: cur }),
                    }
                } else {
                    run.op = 0;
                    run.phase = Phase::Running;
                    (run, EngineAction::RunOperation { step: cur, op: 0 })
                }
            },
            (Phase::Beginning, RunEvent::Failed { kind, message }) => {
                run.failure = Some(Error::Storage { kind, message });
                run.phase = Phase::Unlocking;
                (run, EngineAction::ReleaseLock)
            },
            (Phase::Running, RunEvent::Succeeded) => {
                let node = run.plan[run.step].node;
                let count = run.graph.node_at(node).op_count;
                let cur = run.step;
                if run.op + 1 < count {
                    let next_op = run.op + 1;
                    run.op = next_op;
                    run.phase = Phase::Running;
                    (run, EngineAction::RunOperation { step: cur, op: next_op })
                } else {
                    run.phase = Phase::Recording;
                    match run.plan[cur].dir {
                        Direction::Up => (run, EngineAction::RecordApplied { step: cur }),
                        Direction::Down => (run, EngineAction::RecordReverted { step: cur }),
                    }
                }
            },
            (Phase::Running, RunEvent::Failed { kind, message }) => {
                run.failure = Some(Error::Storage { kind, message });
                run.failed_step = Some(run.step);
                run.failed_op = Some(run.op);
                run.phase = Phase::RollingBack;
                (run, EngineAction::RollbackStep)
            },
            (Phase::Recording, RunEvent::Succeeded) => {
                run.phase = Phase::Committing;
                (run, EngineAction::CommitStep)
            },
            (Phase::Recording, RunEvent::Failed { kind, message }) => {
                run.failure = Some(Error::Storage { kind, message });
                run.failed_step = Some(run.step);
                run.phase = Phase::RollingBack;
                (run, EngineAction::RollbackStep)
            },
            (Phase::Committing, RunEvent::Succeeded) => {
                let node = run.plan[run.step].node;
                let up = match run.plan[run.step].dir {
                    Direction::Up => true,
                    Direction::Down => false,
                };
                run.applied.set(node, up);
                let plen = run.plan.len();
                if run.step + 1 < plen {
                    run.step = run.step + 1;
                    run.phase = Phase::Beginning;
                    (run, EngineAction::BeginStep)
                } else {
                    run.phase = Phase::Unlocking;
                    (run, EngineAction::ReleaseLock)
                }
            },
            (Phase::Committing, RunEvent::Failed { kind, message }) => {
                run.failure = Some(Error::Storage { kind, message });
                run.failed_step = Some(run.step);
                run.phase = Phase::RollingBack;
                (run, EngineAction::RollbackStep)
            },
            (Phase::RollingBack, _) => {
                run.phase = Phase::Unlocking;
                (run, EngineAction::ReleaseLock)
            },
            (Phase::Unlocking, RunEvent::Succeeded) => {
                run.lock_held = false;
                run.phase = Phase::Finished;
                (run, EngineAction::Stop)
            },
            (Phase::Unlocking, RunEvent::Failed { kind: _, message }) => {
                run.lock_held = false;
                run.release_failure = Some(Error::Lock { message });
                run.phase = Phase::Finished;
                (run, EngineAction::Stop)
            },
            (_, _) => {
                run.lock_held = false;
                run.phase = Phase::Finished;
                (run, EngineAction::Stop)
            },
        }
    }
}

} // verus!
