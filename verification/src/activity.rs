//! The activity of an agent: its log entries and its tasks.

use vstd::prelude::*;

verus! {

/// The tool name of log entries that start a new task list. They are internal
/// bookkeeping and never shown.
pub const TASK_RESET_MARKER: &'static str = "__task_reset__";

/// How far a task is.
#[derive(Debug, Clone, Copy, PartialEq, Eq, Structural)]
pub enum TaskStatus {
    Pending,
    InProgress,
    Completed,
}

/// The tasks of an agent.
#[derive(Debug)]
pub struct TaskProgress {
    pub tasks: Vec<(String, TaskStatus)>,
}

impl View for TaskProgress {
    type V = Seq<(Seq<char>, TaskStatus)>;

    open spec fn view(&self) -> Seq<(Seq<char>, TaskStatus)> {
        self.tasks@.map_values(|task: (String, TaskStatus)| (task.0@, task.1))
    }
}

/// Whether every task is completed.
pub open spec fn tasks_done(tasks: Seq<(Seq<char>, TaskStatus)>) -> bool {
    forall|i: int| 0 <= i < tasks.len() ==> (#[trigger] tasks[i]).1 == TaskStatus::Completed
}

impl TaskProgress {
    /// Whether there is no task.
    pub fn is_empty(&self) -> (yes: bool)
        ensures
            yes == (self@.len() == 0),
    {
        self.tasks.len() == 0
    }

    /// The number of tasks.
    pub fn total(&self) -> (count: usize)
        ensures
            count == self@.len(),
    {
        self.tasks.len()
    }

    /// Whether every task is completed.
    pub fn all_completed(&self) -> (yes: bool)
        ensures
            yes == tasks_done(self@),
    {
        let mut i: usize = 0;
        while i < self.tasks.len()
            invariant
                i <= self.tasks@.len(),
                forall|k: int| 0 <= k < i ==> (#[trigger] self@[k]).1 == TaskStatus::Completed,
            decreases self.tasks@.len() - i,
        {
            if self.tasks[i].1 != TaskStatus::Completed {
                proof {
                    assert(self@[i as int].1 != TaskStatus::Completed);
                }
                return false;
            }
            i = i + 1;
        }
        true
    }
}

impl Clone for TaskProgress {
    fn clone(&self) -> (copy: Self)
        ensures
            copy@ == self@,
    {
        let mut tasks: Vec<(String, TaskStatus)> = Vec::new();
        let mut i: usize = 0;
        while i < self.tasks.len()
            invariant
                i <= self.tasks@.len(),
                tasks@ == self.tasks@.take(i as int),
            decreases self.tasks@.len() - i,
        {
            tasks.push((self.tasks[i].0.clone(), self.tasks[i].1));
            i = i + 1;
            proof {
                assert(self.tasks@.take(i as int) =~= self.tasks@.take(i - 1).push(
                    self.tasks@[i - 1],
                ));
            }
        }
        proof {
            assert(self.tasks@.take(i as int) =~= self.tasks@);
        }
        TaskProgress { tasks }
    }
}

/// An entry of the activity log.
#[derive(Debug, PartialEq, Eq)]
pub struct ActivityEntry {
    pub timestamp: String,
    pub tool: String,
    pub label: String,
}

} // verus!
