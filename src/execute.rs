use vstd::prelude::*;
use crate::model::{TaskDefinition, TaskView};

verus! {

/// What the caller of the executor does next.
#[derive(Clone, Copy, Debug, PartialEq, Eq, Structural)]
pub enum Action {
    /// Announce and run the task at this index of the task list.
    Run(usize),
    /// Every task succeeded: the run succeeded.
    Succeeded,
    /// The task at this index failed: the run failed, nothing more runs.
    Failed(usize),
}

/// Where a run through a task list stands: how many tasks there are, how
/// many have succeeded, and which one failed, if any.
pub struct ExecView {
    pub total: nat,
    pub succeeded: nat,
    pub failed: Option<nat>,
}

pub open spec fn exec_wf(e: ExecView) -> bool {
    &&& e.succeeded <= e.total
    &&& match e.failed {
        Some(i) => i == e.succeeded && i < e.total,
        None => true,
    }
}

pub open spec fn spec_action(e: ExecView) -> Action {
    match e.failed {
        Some(i) => Action::Failed(i as usize),
        None => if e.succeeded < e.total {
            Action::Run(e.succeeded as usize)
        } else {
            Action::Succeeded
        },
    }
}

/// The state after the running task ends with the given status.
pub open spec fn spec_record(e: ExecView, success: bool) -> ExecView {
    if success {
        ExecView { succeeded: e.succeeded + 1, ..e }
    } else {
        ExecView { failed: Some(e.succeeded), ..e }
    }
}

pub open spec fn spec_start(total: nat) -> ExecView {
    ExecView { total, succeeded: 0, failed: None }
}

/// The state after the tasks that ran ended with `statuses`, in order; a
/// status that comes once the run is over changes nothing.
pub open spec fn after(e: ExecView, statuses: Seq<bool>) -> ExecView
    decreases statuses.len(),
{
    if statuses.len() == 0 {
        e
    } else {
        let p = after(e, statuses.drop_last());
        if spec_action(p) is Run {
            spec_record(p, statuses.last())
        } else {
            p
        }
    }
}

/// Runs a task list one task at a time and stops at the first failure. The
/// caller asks for the next action, performs it, and reports how it ended.
pub struct Executor {
    total: usize,
    succeeded: usize,
    failed: Option<usize>,
}

impl View for Executor {
    type V = ExecView;

    closed spec fn view(&self) -> ExecView {
        ExecView {
            total: self.total as nat,
            succeeded: self.succeeded as nat,
            failed: match self.failed {
                Some(i) => Some(i as nat),
                None => None,
            },
        }
    }
}

impl Executor {
    pub closed spec fn wf(&self) -> bool {
        exec_wf(self@)
    }

    pub fn new(tasks: &Vec<TaskDefinition>) -> (r: Executor)
        ensures
            r.wf(),
            r@ == spec_start(tasks@.len()),
    {
        Executor { total: tasks.len(), succeeded: 0, failed: None }
    }

    pub fn next_action(&self) -> (r: Action)
        requires
            self.wf(),
        ensures
            r == spec_action(self@),
    {
        match self.failed {
            Some(i) => Action::Failed(i),
            None => if self.succeeded < self.total {
                Action::Run(self.succeeded)
            } else {
                Action::Succeeded
            },
        }
    }

    /// Reports how the task that `next_action` asked for ended.
    pub fn record(&mut self, success: bool)
        requires
            old(self).wf(),
            spec_action(old(self)@) is Run,
        ensures
            final(self).wf(),
            final(self)@ == spec_record(old(self)@, success),
    {
        if success {
            self.succeeded = self.succeeded + 1;
        } else {
            self.failed = Some(self.succeeded);
        }
    }
}

/// Fail-fast: when the tasks before `k` succeed and task `k` fails, the run
/// stops there. It fails naming `k`, and no status reported afterwards starts
/// another task.
pub proof fn lemma_fail_fast(total: nat, statuses: Seq<bool>, k: int, later: Seq<bool>)
    requires
        0 <= k < statuses.len(),
        k < total,
        forall|j: int| 0 <= j < k ==> statuses[j],
        !statuses[k],
    ensures
        after(spec_start(total), statuses.take(k + 1)) == (ExecView {
            total,
            succeeded: k as nat,
            failed: Some(k as nat),
        }),
        after(spec_start(total), statuses.take(k + 1) + later) == after(
            spec_start(total),
            statuses.take(k + 1),
        ),
        spec_action(after(spec_start(total), statuses.take(k + 1) + later)) == Action::Failed(
            k as usize,
        ),
{
    lemma_all_succeed(total, statuses, k);
    assert(statuses.take(k + 1).drop_last() =~= statuses.take(k));
    lemma_stays_over(after(spec_start(total), statuses.take(k + 1)), statuses.take(k + 1), later);
}

/// While every task succeeds, each status moves the run on by one task.
pub proof fn lemma_all_succeed(total: nat, statuses: Seq<bool>, k: int)
    requires
        0 <= k <= statuses.len(),
        k <= total,
        forall|j: int| 0 <= j < k ==> statuses[j],
    ensures
        after(spec_start(total), statuses.take(k)) == (ExecView {
            total,
            succeeded: k as nat,
            failed: None,
        }),
    decreases k,
{
    if k > 0 {
        lemma_all_succeed(total, statuses, k - 1);
        assert(statuses.take(k).drop_last() =~= statuses.take(k - 1));
    }
}

proof fn lemma_stays_over(e: ExecView, s: Seq<bool>, later: Seq<bool>)
    requires
        e == after(spec_start(e.total), s),
        !(spec_action(e) is Run),
    ensures
        after(spec_start(e.total), s + later) == e,
    decreases later.len(),
{
    if later.len() == 0 {
        assert(s + later =~= s);
    } else {
        lemma_stays_over(e, s, later.drop_last());
        assert((s + later).drop_last() =~= s + later.drop_last());
    }
}

/// The line announcing a task: its name in quotes, or none for an unnamed task.
pub open spec fn spec_start_line(t: TaskView) -> Seq<char> {
    match t.name {
        Some(n) => "Checking '"@ + n + "':"@,
        None => "Checking:"@,
    }
}

pub fn start_line(task: &TaskDefinition) -> (r: String)
    ensures
        r@ == spec_start_line(task@),
{
    match &task.name {
        Some(n) => {
            let mut line = String::from_str("Checking '");
            line.append(n.as_str());
            line.append("':");
            line
        },
        None => String::from_str("Checking:"),
    }
}

/// The line that follows a task that succeeded.
pub fn success_line() -> (r: String)
    ensures
        r@ == "Success!"@,
{
    String::from_str("Success!")
}

} // verus!
