//! The order of the work of a run, and what the run comes to.
//!
//! A run has three tasks: the map scripts, the music scripts and the
//! reslists. For a release, the reslist lists the two scripts as well, so its
//! task waits for both of theirs. Every task is run to its end whatever
//! becomes of the others, and the failures are gathered at the end.

use vstd::prelude::*;

verus! {

/// The tasks of a run.
#[derive(Clone, Copy, Debug, PartialEq, Eq, Structural)]
pub enum Task {
    MapScript,
    MusicScript,
    Reslist,
}

/// How far a task has come.
#[derive(Clone, Copy, Debug, PartialEq, Eq, Structural)]
pub enum TaskState {
    Waiting,
    Running,
    Passed,
    Failed,
}

/// Whether a task has come to its end.
pub open spec fn is_finished(state: TaskState) -> bool {
    state == TaskState::Passed || state == TaskState::Failed
}

/// What is known of a run, as contracts speak of it.
pub struct RunView {
    pub fullcheck: bool,
    pub map_script: TaskState,
    pub music_script: TaskState,
    pub reslist: TaskState,
}

impl RunView {
    /// How far the given task has come.
    pub open spec fn state(self, task: Task) -> TaskState {
        match task {
            Task::MapScript => self.map_script,
            Task::MusicScript => self.music_script,
            Task::Reslist => self.reslist,
        }
    }

    /// The run with the given task in the given state.
    pub open spec fn with_state(self, task: Task, state: TaskState) -> RunView {
        match task {
            Task::MapScript => RunView { map_script: state, ..self },
            Task::MusicScript => RunView { music_script: state, ..self },
            Task::Reslist => RunView { reslist: state, ..self },
        }
    }

    /// Whether the given task may start: it has not started yet, and, if it
    /// is the reslist of a release, both scripts have come to their end.
    pub open spec fn may_start(self, task: Task) -> bool {
        &&& self.state(task) == TaskState::Waiting
        &&& task == Task::Reslist && !self.fullcheck ==> is_finished(self.map_script)
            && is_finished(self.music_script)
    }

    /// Whether every task has come to its end.
    pub open spec fn is_complete(self) -> bool {
        is_finished(self.map_script) && is_finished(self.music_script) && is_finished(self.reslist)
    }

    /// The order that every run keeps: the reslist of a release has not
    /// started before both scripts have come to their end.
    pub open spec fn in_order(self) -> bool {
        !self.fullcheck && self.reslist != TaskState::Waiting ==> is_finished(self.map_script)
            && is_finished(self.music_script)
    }
}

/// What is known of the tasks of a run.
#[derive(Clone, Copy, Debug)]
pub struct Run {
    fullcheck: bool,
    map_script: TaskState,
    music_script: TaskState,
    reslist: TaskState,
}

impl View for Run {
    type V = RunView;

    closed spec fn view(&self) -> RunView {
        RunView {
            fullcheck: self.fullcheck,
            map_script: self.map_script,
            music_script: self.music_script,
            reslist: self.reslist,
        }
    }
}

impl Run {
    #[verifier::type_invariant]
    spec fn kept_in_order(&self) -> bool {
        self@.in_order()
    }

    /// A run of which no task has started. `fullcheck` says whether a whole
    /// installation is checked rather than a release.
    pub fn new(fullcheck: bool) -> (r: Run)
        ensures
            r@ == (RunView {
                fullcheck,
                map_script: TaskState::Waiting,
                music_script: TaskState::Waiting,
                reslist: TaskState::Waiting,
            }),
    {
        Run {
            fullcheck,
            map_script: TaskState::Waiting,
            music_script: TaskState::Waiting,
            reslist: TaskState::Waiting,
        }
    }

    /// How far the given task has come.
    pub fn state(&self, task: Task) -> (r: TaskState)
        ensures
            r == self@.state(task),
            self@.in_order(),
    {
        proof {
            use_type_invariant(self);
        }
        match task {
            Task::MapScript => self.map_script,
            Task::MusicScript => self.music_script,
            Task::Reslist => self.reslist,
        }
    }

    /// Whether the given task may start.
    pub fn may_start(&self, task: Task) -> (r: bool)
        ensures
            r == self@.may_start(task),
    {
        match task {
            Task::MapScript => self.map_script == TaskState::Waiting,
            Task::MusicScript => self.music_script == TaskState::Waiting,
            Task::Reslist => self.reslist == TaskState::Waiting && (self.fullcheck || (
            finished(self.map_script) && finished(self.music_script))),
        }
    }

    /// Starts the given task, if it may start, and says whether it did.
    pub fn start(&mut self, task: Task) -> (r: bool)
        ensures
            r == old(self)@.may_start(task),
            final(self)@ == if r {
                old(self)@.with_state(task, TaskState::Running)
            } else {
                old(self)@
            },
    {
        proof {
            use_type_invariant(&*self);
        }
        if !self.may_start(task) {
            return false;
        }
        match task {
            Task::MapScript => {
                self.map_script = TaskState::Running;
            },
            Task::MusicScript => {
                self.music_script = TaskState::Running;
            },
            Task::Reslist => {
                self.reslist = TaskState::Running;
            },
        }
        true
    }

    /// Records the end of the given task, if it is running, and says whether
    /// it was.
    pub fn finish(&mut self, task: Task, failed: bool) -> (r: bool)
        ensures
            r == (old(self)@.state(task) == TaskState::Running),
            final(self)@ == if r {
                old(self)@.with_state(
                    task,
                    if failed {
                        TaskState::Failed
                    } else {
                        TaskState::Passed
                    },
                )
            } else {
                old(self)@
            },
    {
        proof {
            use_type_invariant(&*self);
        }
        let state = if failed {
            TaskState::Failed
        } else {
            TaskState::Passed
        };
        match task {
            Task::MapScript => {
                if self.map_script != TaskState::Running {
                    return false;
                }
                self.map_script = state;
            },
            Task::MusicScript => {
                if self.music_script != TaskState::Running {
                    return false;
                }
                self.music_script = state;
            },
            Task::Reslist => {
                if self.reslist != TaskState::Running {
                    return false;
                }
                self.reslist = state;
            },
        }
        true
    }

    /// Whether every task has come to its end.
    pub fn is_complete(&self) -> (r: bool)
        ensures
            r == self@.is_complete(),
    {
        finished(self.map_script) && finished(self.music_script) && finished(self.reslist)
    }

    /// The exit code of the run, once every task has come to its end: the
    /// code that gathers the failures of all three. There is none while a
    /// task has yet to end.
    pub fn exit_code(&self) -> (r: Option<i32>)
        ensures
            match r {
                Some(code) => self@.is_complete() && code == failure_code(
                    self@.map_script == TaskState::Failed,
                    self@.music_script == TaskState::Failed,
                    self@.reslist == TaskState::Failed,
                ),
                None => !self@.is_complete(),
            },
    {
        if !self.is_complete() {
            return None;
        }
        Some(
            exit_code(
                self.map_script == TaskState::Failed,
                self.music_script == TaskState::Failed,
                self.reslist == TaskState::Failed,
            ),
        )
    }
}

/// Whether a task has come to its end.
pub fn finished(state: TaskState) -> (r: bool)
    ensures
        r == is_finished(state),
{
    state == TaskState::Passed || state == TaskState::Failed
}

/// The exit code that marks arguments that cannot be worked with.
pub const INVALID_ARGUMENTS: i32 = 1;

/// The code in which the failures of a run are reported: the sum of 2 for
/// the map scripts, 4 for the music scripts and 8 for the reslists, each
/// counted if its task failed. Zero says that nothing failed.
pub open spec fn failure_code(
    map_script_failed: bool,
    music_script_failed: bool,
    reslist_failed: bool,
) -> int {
    (if map_script_failed {
        2int
    } else {
        0int
    }) + (if music_script_failed {
        4int
    } else {
        0int
    }) + (if reslist_failed {
        8int
    } else {
        0int
    })
}

/// Gathers the failures of the three tasks of a run into one exit code.
/// Every task is run to its end before this is asked; no failure hides
/// another.
pub fn exit_code(map_script_failed: bool, music_script_failed: bool, reslist_failed: bool) -> (r: i32)
    ensures
        r == failure_code(map_script_failed, music_script_failed, reslist_failed),
        r == 0 <==> !map_script_failed && !music_script_failed && !reslist_failed,
{
    let mut error_code: i32 = 0;
    if map_script_failed {
        error_code += 2;
    }
    if music_script_failed {
        error_code += 4;
    }
    if reslist_failed {
        error_code += 8;
    }
    error_code
}

/// The failure of a task does not stop the others: whatever the state of
/// the other tasks, a task that may start before one of them ends may start
/// after it has ended, whether it passed or failed.
pub proof fn lemma_failure_stops_no_task(run: RunView, ended: Task, failed: bool, task: Task)
    requires
        run.state(ended) == TaskState::Running,
        task != ended,
        run.may_start(task),
    ensures
        run.with_state(
            ended,
            if failed {
                TaskState::Failed
            } else {
                TaskState::Passed
            },
        ).may_start(task),
{
}

/// The reslist of a release waits for both scripts: it may start exactly
/// when it has not started and both have come to their end. In a check of
/// a whole installation no task waits for another.
pub proof fn lemma_reslist_waits(run: RunView, task: Task)
    ensures
        !run.fullcheck ==> (run.may_start(Task::Reslist) <==> run.reslist == TaskState::Waiting
            && is_finished(run.map_script) && is_finished(run.music_script)),
        run.fullcheck || task != Task::Reslist ==> (run.may_start(task) <==> run.state(task)
            == TaskState::Waiting),
{
}

/// A run stays in order: starting a task that may start, and ending a task
/// that is running, leave the reslist of a release behind both scripts.
pub proof fn lemma_order_is_kept(run: RunView, task: Task, failed: bool)
    requires
        run.in_order(),
    ensures
        run.may_start(task) ==> run.with_state(task, TaskState::Running).in_order(),
        run.state(task) == TaskState::Running ==> run.with_state(
            task,
            if failed {
                TaskState::Failed
            } else {
                TaskState::Passed
            },
        ).in_order(),
{
}

} // verus!
