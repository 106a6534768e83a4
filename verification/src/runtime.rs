//! Handles of background tasks.
use vstd::prelude::*;

verus! {

/// A handle of a long running background task, which can be stopped.
pub trait JoinHandle {
    /// Whether the handle still refers to a task that can be stopped.
    spec fn is_active(&self) -> bool;

    /// Stop the task.
    fn abort(&mut self)
        requires
            old(self).is_active(),
    ;
}

#[verifier::external_type_specification]
#[verifier::external_body]
#[verifier::reject_recursive_types(T)]
pub struct ExBevyTask<T>(bevy::tasks::Task<T>);

/// Cancels a bevy task: `bevy::tasks::Task::cancel`, whose future is dropped
/// at once, which drops the task and so cancels it. Nothing is claimed.
#[verifier::external_body]
fn cancel_bevy_task(task: bevy::tasks::Task<()>) {
    let _ = task.cancel();
}

impl JoinHandle for Option<bevy::tasks::Task<()>> {
    open spec fn is_active(&self) -> bool {
        self.is_some()
    }

    /// Takes the task out of the handle and cancels it; the handle is empty
    /// afterwards, so a second abort is not allowed.
    fn abort(&mut self)
        ensures
            final(self).is_none(),
    {
        let task = self.take();
        match task {
            Some(task) => cancel_bevy_task(task),
            None => {},
        }
    }
}

} // verus!
