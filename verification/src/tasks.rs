//! The tasks that stand between a pull request and its merge.
use vstd::prelude::*;
use crate::text::str_eq;

verus! {

#[derive(Debug, Clone, Copy, PartialEq, Eq, Structural)]
pub enum TaskType {
    FixCi,
    RespondThread,
    MergeConflict,
    RebaseOnParent,
    AwaitingCi,
    AwaitingReview,
    MarkReady,
    ReadyUnverified,
}

#[derive(Debug, Clone)]
pub struct Task {
    pub pr: u64,
    pub task_type: TaskType,
    pub blocking: bool,
    pub description: String,
    pub context_hint: String,
}

/// The name `{:?}` prints for a task type.
pub open spec fn task_type_text(t: TaskType) -> Seq<char> {
    match t {
        TaskType::FixCi => "FixCi"@,
        TaskType::RespondThread => "RespondThread"@,
        TaskType::MergeConflict => "MergeConflict"@,
        TaskType::RebaseOnParent => "RebaseOnParent"@,
        TaskType::AwaitingCi => "AwaitingCi"@,
        TaskType::AwaitingReview => "AwaitingReview"@,
        TaskType::MarkReady => "MarkReady"@,
        TaskType::ReadyUnverified => "ReadyUnverified"@,
    }
}

pub fn task_type_name(t: TaskType) -> (r: &'static str)
    ensures
        r@ == task_type_text(t),
{
    match t {
        TaskType::FixCi => "FixCi",
        TaskType::RespondThread => "RespondThread",
        TaskType::MergeConflict => "MergeConflict",
        TaskType::RebaseOnParent => "RebaseOnParent",
        TaskType::AwaitingCi => "AwaitingCi",
        TaskType::AwaitingReview => "AwaitingReview",
        TaskType::MarkReady => "MarkReady",
        TaskType::ReadyUnverified => "ReadyUnverified",
    }
}

/// `ci-pass`: no CI task (failing or pending) is left; `ready`: no blocking task
/// is left. No other condition is ever met.
pub open spec fn wait_condition_met(condition: Seq<char>, tasks: Seq<Task>) -> bool {
    if condition == "ci-pass"@ {
        forall|i: int| 0 <= i < tasks.len() ==> #[trigger] tasks[i].task_type != TaskType::FixCi
            && tasks[i].task_type != TaskType::AwaitingCi
    } else if condition == "ready"@ {
        forall|i: int| 0 <= i < tasks.len() ==> !(#[trigger] tasks[i]).blocking
    } else {
        false
    }
}

/// Each task counts, wherever it stands in the list: a CI task (failing or
/// pending) anywhere keeps `ci-pass` from being met, and a blocking task anywhere
/// keeps `ready` from being met. With no task left both are met, and no other
/// condition ever is.
pub proof fn law_wait_held_back_by_any_task(tasks: Seq<Task>)
    ensures
        forall|i: int| 0 <= i < tasks.len()
            && (#[trigger] tasks[i].task_type == TaskType::FixCi || tasks[i].task_type == TaskType::AwaitingCi)
            ==> !wait_condition_met("ci-pass"@, tasks),
        forall|i: int| 0 <= i < tasks.len() && (#[trigger] tasks[i]).blocking ==> !wait_condition_met("ready"@, tasks),
        tasks.len() == 0 ==> wait_condition_met("ci-pass"@, tasks) && wait_condition_met("ready"@, tasks),
        forall|c: Seq<char>| c != "ci-pass"@ && c != "ready"@ ==> !#[trigger] wait_condition_met(c, tasks),
{
    reveal_strlit("ci-pass");
    reveal_strlit("ready");
    assert("ready"@ != "ci-pass"@) by {
        assert("ready"@[0] != "ci-pass"@[0]);
    }
}

/// Whether the condition `fp watch --wait-for` waits on holds of `tasks`.
pub fn is_wait_condition_met(condition: &str, tasks: &[Task]) -> (r: bool)
    ensures
        r == wait_condition_met(condition@, tasks@),
        forall|i: int| 0 <= i < tasks@.len() && condition@ == "ci-pass"@
            && (#[trigger] tasks@[i].task_type == TaskType::FixCi || tasks@[i].task_type == TaskType::AwaitingCi) ==> !r,
        forall|i: int| 0 <= i < tasks@.len() && condition@ == "ready"@ && (#[trigger] tasks@[i]).blocking ==> !r,
{
    proof { law_wait_held_back_by_any_task(tasks@); }
    if str_eq(condition, "ci-pass") {
        let mut i: usize = 0;
        while i < tasks.len()
            invariant
                i <= tasks@.len(),
                condition@ == "ci-pass"@,
                forall|j: int| 0 <= j < i ==> #[trigger] tasks@[j].task_type != TaskType::FixCi
                    && tasks@[j].task_type != TaskType::AwaitingCi,
            decreases tasks@.len() - i,
        {
            if tasks[i].task_type == TaskType::FixCi || tasks[i].task_type == TaskType::AwaitingCi {
                return false;
            }
            i += 1;
        }
        true
    } else if str_eq(condition, "ready") {
        let mut i: usize = 0;
        while i < tasks.len()
            invariant
                i <= tasks@.len(),
                condition@ != "ci-pass"@,
                condition@ == "ready"@,
                forall|j: int| 0 <= j < i ==> !(#[trigger] tasks@[j]).blocking,
            decreases tasks@.len() - i,
        {
            if tasks[i].blocking {
                return false;
            }
            i += 1;
        }
        true
    } else {
        false
    }
}

/// A copy of `t`.
pub fn copy_task(t: &Task) -> (r: Task)
    ensures
        r == *t,
{
    Task {
        pr: t.pr,
        task_type: t.task_type,
        blocking: t.blocking,
        description: t.description.clone(),
        context_hint: t.context_hint.clone(),
    }
}

} // verus!
