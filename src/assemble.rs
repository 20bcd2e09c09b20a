use vstd::prelude::*;
use crate::model::{tasks_view, workflows_view, TaskDefinition, TaskView, WorkflowDefinition, WorkflowView};

verus! {

/// The tasks of the workflows, workflow after workflow, each in declared order.
pub open spec fn all_tasks(ws: Seq<WorkflowView>) -> Seq<TaskView>
    decreases ws.len(),
{
    if ws.len() == 0 {
        Seq::empty()
    } else {
        all_tasks(ws.drop_last()) + ws.last().tasks
    }
}

pub open spec fn has_command(s: Seq<TaskView>, c: Seq<char>) -> bool {
    exists|i: int| 0 <= i < s.len() && (#[trigger] s[i]).command == c
}

/// Keeps each task whose command has not been seen earlier in the sequence.
pub open spec fn dedup(s: Seq<TaskView>) -> Seq<TaskView>
    decreases s.len(),
{
    if s.len() == 0 {
        Seq::empty()
    } else {
        let d = dedup(s.drop_last());
        if has_command(d, s.last().command) {
            d
        } else {
            d.push(s.last())
        }
    }
}

/// The task at `i` is the first in `s` with its command.
pub open spec fn first_occurrence(s: Seq<TaskView>, i: int) -> bool {
    0 <= i < s.len() && forall|j: int| 0 <= j < i ==> (#[trigger] s[j]).command != s[i].command
}

proof fn lemma_prefix_index(s: Seq<TaskView>)
    requires
        s.len() > 0,
    ensures
        forall|i: int| 0 <= i < s.len() - 1 ==> #[trigger] s.drop_last()[i] == s[i],
{
}

/// No two tasks that deduplication keeps share a command.
pub proof fn lemma_dedup_unique(s: Seq<TaskView>)
    ensures
        forall|a: int, b: int|
            0 <= a < b < dedup(s).len() ==> (#[trigger] dedup(s)[a]).command != (
            #[trigger] dedup(s)[b]).command,
    decreases s.len(),
{
    if s.len() > 0 {
        lemma_dedup_unique(s.drop_last());
        let d = dedup(s.drop_last());
        if !has_command(d, s.last().command) {
            let nd = d.push(s.last());
            assert forall|a: int, b: int|
                0 <= a < b < nd.len() implies (#[trigger] nd[a]).command != (
                #[trigger] nd[b]).command by {
                assert(nd[a] == d[a]);
                if b < d.len() {
                    assert(nd[b] == d[b]);
                }
            }
        }
    }
}

/// Every command of the input is kept.
pub proof fn lemma_dedup_covers(s: Seq<TaskView>)
    ensures
        forall|i: int| 0 <= i < s.len() ==> has_command(dedup(s), (#[trigger] s[i]).command),
    decreases s.len(),
{
    if s.len() > 0 {
        let p = s.drop_last();
        lemma_dedup_covers(p);
        lemma_prefix_index(s);
        let d = dedup(p);
        if !has_command(d, s.last().command) {
            let nd = d.push(s.last());
            assert forall|i: int| 0 <= i < s.len() implies has_command(
                nd,
                (#[trigger] s[i]).command,
            ) by {
                if i < p.len() {
                    assert(p[i] == s[i]);
                    let j = choose|j: int| 0 <= j < d.len() && (#[trigger] d[j]).command == p[i].command;
                    assert(nd[j] == d[j]);
                } else {
                    assert(nd[d.len() as int] == s[i]);
                }
            }
        } else {
            assert forall|i: int| 0 <= i < s.len() implies has_command(
                d,
                (#[trigger] s[i]).command,
            ) by {
                if i < p.len() {
                    assert(p[i] == s[i]);
                }
            }
        }
    }
}

proof fn lemma_first_occurrence_extends(p: Seq<TaskView>, s: Seq<TaskView>, i: int)
    requires
        s.len() > 0,
        p == s.drop_last(),
        first_occurrence(p, i),
    ensures
        first_occurrence(s, i),
{
    assert forall|j: int| 0 <= j < i implies (#[trigger] s[j]).command != s[i].command by {
        assert(s[j] == p[j]);
        assert(s[i] == p[i]);
    }
}

proof fn lemma_last_is_first(s: Seq<TaskView>)
    requires
        s.len() > 0,
        !has_command(dedup(s.drop_last()), s.last().command),
    ensures
        first_occurrence(s, s.len() - 1),
{
    let p = s.drop_last();
    lemma_dedup_covers(p);
    assert forall|j: int| 0 <= j < s.len() - 1 implies (#[trigger] s[j]).command != s[s.len()
        - 1].command by {
        assert(s[j] == p[j]);
    }
}

/// Each kept task is the first task of the input with its command.
pub proof fn lemma_dedup_first(s: Seq<TaskView>)
    ensures
        forall|k: int|
            0 <= k < dedup(s).len() ==> exists|i: int|
                first_occurrence(s, i) && s[i] == #[trigger] dedup(s)[k],
    decreases s.len(),
{
    if s.len() > 0 {
        let p = s.drop_last();
        lemma_dedup_first(p);
        let d = dedup(p);
        assert forall|k: int| 0 <= k < d.len() implies exists|i: int|
            first_occurrence(s, i) && s[i] == #[trigger] d[k] by {
            let i = choose|i: int| first_occurrence(p, i) && p[i] == d[k];
            lemma_first_occurrence_extends(p, s, i);
            assert(s[i] == p[i]);
        }
        if !has_command(d, s.last().command) {
            let nd = d.push(s.last());
            lemma_last_is_first(s);
            assert forall|k: int| 0 <= k < nd.len() implies exists|i: int|
                first_occurrence(s, i) && s[i] == #[trigger] nd[k] by {
                if k < d.len() {
                    assert(nd[k] == d[k]);
                } else {
                    assert(s[s.len() - 1] == nd[k]);
                }
            }
        }
    }
}

proof fn lemma_first_occurrence_unique(s: Seq<TaskView>, i: int, j: int)
    requires
        first_occurrence(s, i),
        first_occurrence(s, j),
        s[i].command == s[j].command,
    ensures
        i == j,
{
    if i < j {
        assert(s[i].command != s[j].command);
    } else if j < i {
        assert(s[j].command != s[i].command);
    }
}

proof fn lemma_dedup_order_at(s: Seq<TaskView>, a: int, b: int, ib: int)
    requires
        0 <= a < b < dedup(s).len(),
        first_occurrence(s, ib),
        s[ib] == dedup(s)[b],
    ensures
        exists|ia: int| #![trigger s[ia]] 0 <= ia < ib && s[ia].command == dedup(s)[a].command,
    decreases s.len(),
{
    let p = s.drop_last();
    let x = s.last();
    let d = dedup(p);
    lemma_prefix_index(s);
    lemma_dedup_first(p);
    if ib < p.len() {
        assert forall|j: int| 0 <= j < ib implies (#[trigger] p[j]).command != p[ib].command by {
            assert(p[j] == s[j]);
        }
        assert(first_occurrence(p, ib));
        if b < d.len() {
            assert(dedup(s)[b] == d[b]);
            assert(dedup(s)[a] == d[a]);
            lemma_dedup_order_at(p, a, b, ib);
            let ia = choose|ia: int| #![trigger p[ia]] 0 <= ia < ib && p[ia].command == d[a].command;
            assert(s[ia] == p[ia]);
        } else {
            assert(dedup(s)[b] == x);
            let ix = choose|i: int| first_occurrence(s, i) && s[i] == #[trigger] dedup(s)[b];
            lemma_dedup_first(s);
            lemma_last_is_first(s);
            lemma_first_occurrence_unique(s, ib, s.len() - 1);
        }
    } else {
        assert(ib == p.len());
        assert(s[ib] == x);
        if has_command(d, x.command) {
            let j = choose|j: int| 0 <= j < d.len() && (#[trigger] d[j]).command == x.command;
            let i = choose|i: int| first_occurrence(p, i) && p[i] == #[trigger] d[j];
            assert(s[i] == p[i]);
            assert(false);
        } else {
            assert(dedup(s) == d.push(x));
            if b < d.len() {
                assert(dedup(s)[b] == d[b]);
                let i = choose|i: int| first_occurrence(p, i) && p[i] == #[trigger] d[b];
                assert(s[i] == p[i]);
                assert(p[i].command == x.command);
                assert(has_command(d, x.command));
            } else {
                assert(dedup(s)[a] == d[a]);
                let i = choose|i: int| first_occurrence(p, i) && p[i] == #[trigger] d[a];
                assert(s[i] == p[i]);
            }
        }
    }
}

/// Kept tasks come in the order of their first occurrences: the command of an
/// earlier kept task occurs in the input before a later kept task does.
pub proof fn lemma_dedup_order(s: Seq<TaskView>)
    ensures
        forall|a: int, b: int, ib: int|
            #![trigger dedup(s)[a], dedup(s)[b], s[ib]]
            0 <= a < b < dedup(s).len() && first_occurrence(s, ib) && s[ib] == dedup(s)[b]
                ==> exists|ia: int|
                #![trigger s[ia]]
                0 <= ia < ib && s[ia].command == dedup(s)[a].command,
{
    assert forall|a: int, b: int, ib: int|
        #![trigger dedup(s)[a], dedup(s)[b], s[ib]]
        0 <= a < b < dedup(s).len() && first_occurrence(s, ib) && s[ib] == dedup(s)[b]
            implies exists|ia: int|
            #![trigger s[ia]]
            0 <= ia < ib && s[ia].command == dedup(s)[a].command by {
        lemma_dedup_order_at(s, a, b, ib);
    }
}

/// Of two tasks with the same command, the earlier one is kept: when the
/// task at `i` is the first with its command and a later task at `j` shares
/// that command, exactly one kept task has the command, and it is the task at
/// `i`, name and all.
pub proof fn lemma_dedup_keeps_earlier(s: Seq<TaskView>, i: int, j: int)
    requires
        first_occurrence(s, i),
        i < j < s.len(),
        s[j].command == s[i].command,
    ensures
        exists|k: int| 0 <= k < dedup(s).len() && #[trigger] dedup(s)[k] == s[i],
        forall|k: int|
            0 <= k < dedup(s).len() && (#[trigger] dedup(s)[k]).command == s[i].command
                ==> dedup(s)[k] == s[i],
{
    lemma_dedup_covers(s);
    lemma_dedup_first(s);
    let d = dedup(s);
    assert(has_command(d, s[i].command));
    assert forall|k: int| 0 <= k < d.len() && (#[trigger] d[k]).command == s[i].command implies d[k]
        == s[i] by {
        let i2 = choose|i2: int| first_occurrence(s, i2) && s[i2] == #[trigger] d[k];
        lemma_first_occurrence_unique(s, i, i2);
    }
    let k = choose|k: int| 0 <= k < d.len() && (#[trigger] d[k]).command == s[i].command;
    assert(d[k] == s[i]);
}

fn contains_command(out: &Vec<TaskDefinition>, command: &String) -> (r: bool)
    ensures
        r == has_command(tasks_view(out@), command@),
{
    let ghost ov = tasks_view(out@);
    let mut i: usize = 0;
    while i < out.len()
        invariant
            0 <= i <= out.len(),
            ov == tasks_view(out@),
            forall|k: int| 0 <= k < i ==> (#[trigger] ov[k]).command != command@,
        decreases out.len() - i,
    {
        if out[i].command == *command {
            assert(ov[i as int].command == command@);
            return true;
        }
        i = i + 1;
    }
    false
}

/// Merges the tasks of the workflows, in order, keeping only the first task
/// with each command.
pub fn assemble(workflows: &Vec<WorkflowDefinition>) -> (r: Vec<TaskDefinition>)
    ensures
        tasks_view(r@) == dedup(all_tasks(workflows_view(workflows@))),
{
    let ghost wv = workflows_view(workflows@);
    let mut out: Vec<TaskDefinition> = Vec::new();
    let mut i: usize = 0;
    while i < workflows.len()
        invariant
            0 <= i <= workflows.len(),
            wv == workflows_view(workflows@),
            tasks_view(out@) == dedup(all_tasks(wv.take(i as int))),
        decreases workflows.len() - i,
    {
        let w = &workflows[i];
        let ghost before = all_tasks(wv.take(i as int));
        let mut j: usize = 0;
        while j < w.tasks.len()
            invariant
                0 <= i < workflows.len(),
                w == workflows[i as int],
                0 <= j <= w.tasks.len(),
                before == all_tasks(wv.take(i as int)),
                tasks_view(out@) == dedup(before + w@.tasks.take(j as int)),
            decreases w.tasks.len() - j,
        {
            let ghost s = before + w@.tasks.take(j as int);
            let ghost s2 = before + w@.tasks.take(j as int + 1);
            assert(s2.drop_last() == s);
            assert(s2.last() == w.tasks[j as int]@);
            if !contains_command(&out, &w.tasks[j].command) {
                let t = w.tasks[j].clone_task();
                out.push(t);
                assert(tasks_view(out@) == tasks_view(out@).drop_last().push(t@));
            }
            j = j + 1;
        }
        assert(w@.tasks.take(j as int) == w@.tasks);
        assert(wv.take(i as int + 1).drop_last() == wv.take(i as int));
        i = i + 1;
    }
    assert(wv.take(i as int) == wv);
    out
}

} // verus!
