use std::sync::Mutex;
use vstd::prelude::*;

verus! {

/// A value that one thread at a time can reach.
#[verifier::external_type_specification]
#[verifier::external_body]
#[verifier::reject_recursive_types(T)]
pub struct ExMutex<T: ?Sized>(std::sync::Mutex<T>);

/// The value that a mutex was made with. What it holds later, whoever locks it decides.
pub uninterp spec fn made_with(mutex: Mutex<Option<Task>>) -> Option<Task>;

/// Calls `Mutex::new`, which makes an unlocked mutex that holds `task`.
#[verifier::external_body]
fn new_mutex(task: Option<Task>) -> (mutex: Mutex<Option<Task>>)
    ensures
        made_with(mutex) == task,
{
    Mutex::new(task)
}

/// Something the automation is working on.
pub struct Task {
    id: u32,
    name: String,
}

/// Keeps the task that is being worked on.
pub struct TaskManager {
    current_task: Mutex<Option<Task>>,
}

impl TaskManager {
    /// The task that the manager began with.
    pub closed spec fn initial(&self) -> Option<Task> {
        made_with(self.current_task)
    }

    /// A manager without a task.
    pub fn new() -> (manager: TaskManager)
        ensures
            manager.initial() is None,
    {
        TaskManager { current_task: new_mutex(None) }
    }
}

} // verus!
