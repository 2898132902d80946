use vstd::prelude::*;

verus! {

/// Where a delegated task stands.
#[derive(Debug, Clone, Copy, PartialEq, Eq, Structural)]
pub enum TaskStatus {
    Todo,
    InProgress,
    Done,
    Failed,
}

/// The name a status is stored under.
pub open spec fn status_name(s: TaskStatus) -> Seq<char> {
    match s {
        TaskStatus::Todo => "todo"@,
        TaskStatus::InProgress => "in_progress"@,
        TaskStatus::Done => "done"@,
        TaskStatus::Failed => "failed"@,
    }
}

impl TaskStatus {
    /// The name this status is stored under.
    pub fn as_str(&self) -> (r: &'static str)
        ensures
            r@ == status_name(*self),
    {
        match self {
            TaskStatus::Todo => "todo",
            TaskStatus::InProgress => "in_progress",
            TaskStatus::Done => "done",
            TaskStatus::Failed => "failed",
        }
    }
}

/// The law of the stored names: different statuses are stored under
/// different names.
pub proof fn lemma_status_names_distinct(a: TaskStatus, b: TaskStatus)
    ensures
        status_name(a) == status_name(b) ==> a == b,
{
    reveal_strlit("todo");
    reveal_strlit("in_progress");
    reveal_strlit("done");
    reveal_strlit("failed");
    assert("todo"@[0] == 't');
    assert("in_progress"@[0] == 'i');
    assert("done"@[0] == 'd');
    assert("failed"@[0] == 'f');
}

/// A delegated task.
#[derive(Debug, Clone)]
pub struct Task {
    pub id: String,
    pub title: String,
    pub status: String,
    pub schedule: Option<String>,
    pub repeat_rule: Option<String>,
    pub created_at: String,
}

} // verus!
