//! The order in which a document is compiled, shown and watched.
use vstd::prelude::*;

verus! {

/// What is to be done next.
#[derive(Clone, Copy, Debug, PartialEq, Eq, Structural)]
pub enum Task {
    /// Read the source, if it has to be typeset first.
    Read,
    /// Compile the document.
    Compile,
    /// Watch the files that the document depends on. `ready` tells whether it was compiled.
    Watch { ready: bool },
    /// Report the document, or that there is none.
    Report { ready: bool },
    /// Wait until a file changes.
    Wait,
    /// Stop, since nobody takes the reports any more.
    Finish,
    /// Stop, since the files cannot be watched.
    Abort,
}

/// What comes after a task, which has been done or could not be.
pub open spec fn following(task: Task, done: bool) -> Task {
    match task {
        Task::Read => if done {
            Task::Compile
        } else {
            Task::Watch { ready: false }
        },
        Task::Compile => Task::Watch { ready: done },
        Task::Watch { ready } => if done {
            Task::Report { ready }
        } else {
            Task::Abort
        },
        Task::Report { ready: _ } => if done {
            Task::Wait
        } else {
            Task::Finish
        },
        Task::Wait => if done {
            Task::Read
        } else {
            Task::Abort
        },
        Task::Finish => Task::Finish,
        Task::Abort => Task::Abort,
    }
}

impl Task {
    /// What comes next.
    pub fn next(self, done: bool) -> (task: Task)
        ensures
            task == following(self, done),
    {
        match self {
            Task::Read => if done {
                Task::Compile
            } else {
                Task::Watch { ready: false }
            },
            Task::Compile => Task::Watch { ready: done },
            Task::Watch { ready } => if done {
                Task::Report { ready }
            } else {
                Task::Abort
            },
            Task::Report { ready: _ } => if done {
                Task::Wait
            } else {
                Task::Finish
            },
            Task::Wait => if done {
                Task::Read
            } else {
                Task::Abort
            },
            Task::Finish => Task::Finish,
            Task::Abort => Task::Abort,
        }
    }
}

/// A document is reported as ready only after it has been compiled.
pub proof fn only_compiled_documents_are_ready(task: Task, done: bool)
    ensures
        following(task, done) == (Task::Report { ready: true }) ==> task == (Task::Watch {
            ready: true,
        }) && done,
        following(task, done) == (Task::Watch { ready: true }) ==> task == Task::Compile && done,
{
}

/// The tasks after `count` that were all done, from `task` on.
pub open spec fn after(task: Task, count: nat) -> Task
    decreases count,
{
    if count == 0 {
        task
    } else {
        following(after(task, (count - 1) as nat), true)
    }
}

/// A change of a file leads to a new report of the document, and to waiting for the next change.
pub proof fn changes_are_reported(task: Task)
    requires
        task == Task::Wait,
    ensures
        after(task, 1) == Task::Read,
        after(task, 4) == (Task::Report { ready: true }),
        after(task, 5) == Task::Wait,
{
    reveal_with_fuel(after, 6);
}

/// A document that cannot be read or compiled is reported as missing, and the files stay watched.
pub proof fn failures_are_reported(task: Task)
    requires
        task == Task::Read || task == Task::Compile,
    ensures
        after(following(task, false), 1) == (Task::Report { ready: false }),
        after(following(task, false), 2) == Task::Wait,
{
    reveal_with_fuel(after, 3);
}

/// What cannot be watched any more is given up, what nobody takes any more is finished, and neither
/// is taken up again.
pub proof fn tasks_end_where_they_cannot_go_on(task: Task, done: bool)
    ensures
        following(task, done) is Abort <==> task is Abort || (!done && (task is Watch
            || task is Wait)),
        following(task, done) is Finish <==> task is Finish || (!done && task is Report),
{
}

/// A document is read before each compilation, watched before each report, and reported before each
/// wait.
pub proof fn tasks_follow_in_order(task: Task, done: bool)
    ensures
        following(task, done) is Compile ==> task is Read && done,
        following(task, done) is Watch ==> task is Compile || (task is Read && !done),
        following(task, done) is Report ==> task is Watch && done && following(
            task,
            done,
        )->Report_ready == task->Watch_ready,
        following(task, done) is Wait ==> task is Report && done,
        following(task, done) is Read ==> task is Wait && done,
        task is Read && !done ==> following(task, done) == (Task::Watch { ready: false }),
        task is Compile ==> following(task, done) == (Task::Watch { ready: done }),
{
}

} // verus!
