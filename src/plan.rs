use vstd::prelude::*;
use crate::assemble::{all_tasks, assemble, dedup, has_command};
use crate::model::{
    tasks_view, workflows_view, ContextView, RepositoryContext, TaskDefinition, TaskView,
    WorkflowDefinition, WorkflowView,
};
use crate::order::{order_by_source, sort_by_source};
use crate::parse::{parse_workflow, spec_parse_text, ConfigError, Format};
use crate::resolve::{is_eligible, spec_eligible};

verus! {

/// One configuration text as it was found, with its format and the
/// identifier (a file name) that orders it among the others.
pub struct ConfigText {
    pub format: Format,
    pub source_identifier: String,
    pub text: String,
}

/// The workflows that apply in the context, in their order.
pub open spec fn eligible_only(ws: Seq<WorkflowView>, ctx: ContextView) -> Seq<WorkflowView>
    decreases ws.len(),
{
    if ws.len() == 0 {
        Seq::empty()
    } else if spec_eligible(ws.last().triggers, ctx) {
        eligible_only(ws.drop_last(), ctx).push(ws.last())
    } else {
        eligible_only(ws.drop_last(), ctx)
    }
}

/// The task list for the workflows: ordered by source, kept when eligible,
/// merged without repeated commands.
pub open spec fn spec_plan(ws: Seq<WorkflowView>, ctx: ContextView) -> Seq<TaskView> {
    dedup(all_tasks(eligible_only(sort_by_source(ws), ctx)))
}

/// What one configuration text parses to, if it is well formed.
pub open spec fn parsed_config(format: Format, source: Seq<char>, text: Seq<char>) -> Option<
    WorkflowView,
> {
    match spec_parse_text(format, text) {
        Some((t, ts)) => Some(WorkflowView { source_identifier: source, triggers: t, tasks: ts }),
        None => None,
    }
}

/// The workflows of all texts, or the source of the first malformed one.
pub open spec fn parse_all(cs: Seq<ConfigText>) -> Result<Seq<WorkflowView>, Seq<char>>
    decreases cs.len(),
{
    if cs.len() == 0 {
        Ok(Seq::empty())
    } else {
        match parse_all(cs.drop_last()) {
            Err(e) => Err(e),
            Ok(ws) => match parsed_config(
                cs.last().format,
                cs.last().source_identifier@,
                cs.last().text@,
            ) {
                Some(w) => Ok(ws.push(w)),
                None => Err(cs.last().source_identifier@),
            },
        }
    }
}

/// Keeps the workflows that apply in the context.
pub fn filter_eligible(workflows: Vec<WorkflowDefinition>, ctx: &RepositoryContext) -> (r: Vec<
    WorkflowDefinition,
>)
    ensures
        workflows_view(r@) == eligible_only(workflows_view(workflows@), ctx@),
{
    let ghost all = workflows_view(workflows@);
    let mut rest = workflows;
    let mut out: Vec<WorkflowDefinition> = Vec::new();
    let ghost mut i: int = 0;
    assert(all.take(0) =~= Seq::<WorkflowView>::empty());
    assert(workflows_view(out@) =~= Seq::<WorkflowView>::empty());
    assert(all.subrange(0, all.len() as int) =~= all);
    while rest.len() > 0
        invariant
            0 <= i <= all.len(),
            workflows_view(rest@) == all.subrange(i, all.len() as int),
            workflows_view(out@) == eligible_only(all.take(i), ctx@),
        decreases rest.len(),
    {
        let ghost rv = workflows_view(rest@);
        let w = rest.remove(0);
        assert(rv[0] == w@);
        assert(workflows_view(rest@) =~= rv.subrange(1, rv.len() as int));
        assert(rv.subrange(1, rv.len() as int) =~= all.subrange(i + 1, all.len() as int));
        assert(all.take(i + 1).drop_last() =~= all.take(i));
        assert(all.take(i + 1).last() == w@);
        if is_eligible(&w, ctx) {
            let ghost prev = workflows_view(out@);
            let ghost wv = w@;
            out.push(w);
            assert(workflows_view(out@) =~= prev.push(wv));
        }
        proof {
            i = i + 1;
        }
    }
    assert(all.take(i) =~= all);
    out
}

/// The task list for already parsed workflows.
pub fn plan_tasks(workflows: Vec<WorkflowDefinition>, ctx: &RepositoryContext) -> (r: Vec<
    TaskDefinition,
>)
    ensures
        tasks_view(r@) == spec_plan(workflows_view(workflows@), ctx@),
{
    let ordered = order_by_source(workflows);
    let eligible = filter_eligible(ordered, ctx);
    assemble(&eligible)
}

/// The task list for configuration texts: none found is `ConfigNotFound`, a
/// malformed text stops everything and is named, and otherwise the tasks are
/// those of the parsed workflows.
pub fn plan_from_configs(configs: &Vec<ConfigText>, ctx: &RepositoryContext) -> (r: Result<
    Vec<TaskDefinition>,
    ConfigError,
>)
    ensures
        configs@.len() == 0 ==> r is Err && r->Err_0 is ConfigNotFound,
        configs@.len() > 0 ==> match parse_all(configs@) {
            Err(src) => r is Err && r->Err_0 is MalformedConfig && r->Err_0->MalformedConfig_0@
                == src,
            Ok(ws) => r is Ok && tasks_view(r->Ok_0@) == spec_plan(ws, ctx@),
        },
{
    if configs.len() == 0 {
        return Err(ConfigError::ConfigNotFound);
    }
    let mut workflows: Vec<WorkflowDefinition> = Vec::new();
    let mut i: usize = 0;
    assert(configs@.take(0) =~= Seq::<ConfigText>::empty());
    assert(workflows_view(workflows@) =~= Seq::<WorkflowView>::empty());
    while i < configs.len()
        invariant
            0 <= i <= configs.len(),
            parse_all(configs@.take(i as int)) == Ok::<Seq<WorkflowView>, Seq<char>>(
                workflows_view(workflows@),
            ),
        decreases configs.len() - i,
    {
        let c = &configs[i];
        assert(configs@.take(i as int + 1).drop_last() =~= configs@.take(i as int));
        assert(configs@.take(i as int + 1).last() == configs@[i as int]);
        match parse_workflow(c.format, c.source_identifier.clone(), c.text.as_str()) {
            Ok(w) => {
                let ghost prev = workflows_view(workflows@);
                let ghost wv = w@;
                workflows.push(w);
                assert(workflows_view(workflows@) =~= prev.push(wv));
            },
            Err(e) => {
                proof {
                    lemma_parse_all_fails(configs@, i as int + 1);
                }
                return Err(e);
            },
        }
        i = i + 1;
    }
    assert(configs@.take(i as int) =~= configs@);
    Ok(plan_tasks(workflows, ctx))
}

proof fn lemma_parse_all_fails(cs: Seq<ConfigText>, i: int)
    requires
        0 <= i <= cs.len(),
        parse_all(cs.take(i)) is Err,
    ensures
        parse_all(cs) == parse_all(cs.take(i)),
    decreases cs.len() - i,
{
    if i == cs.len() {
        assert(cs.take(i) =~= cs);
    } else {
        assert(cs.take(i + 1).drop_last() =~= cs.take(i));
        lemma_parse_all_fails(cs, i + 1);
    }
}

/// Two lists of configuration texts that agree, text by text, in format,
/// source identifier and content.
pub open spec fn same_configs(a: Seq<ConfigText>, b: Seq<ConfigText>) -> bool {
    &&& a.len() == b.len()
    &&& forall|i: int|
        0 <= i < a.len() ==> (#[trigger] a[i]).format == b[i].format
            && a[i].source_identifier@ == b[i].source_identifier@ && a[i].text@ == b[i].text@
}

/// The same configuration texts in the same repository context always give
/// the same result: the same error, or the same task list.
pub proof fn lemma_plan_deterministic(a: Seq<ConfigText>, b: Seq<ConfigText>, ctx: ContextView)
    requires
        same_configs(a, b),
    ensures
        parse_all(a) == parse_all(b),
        parse_all(a) is Ok ==> spec_plan(parse_all(a)->Ok_0, ctx) == spec_plan(
            parse_all(b)->Ok_0,
            ctx,
        ),
    decreases a.len(),
{
    if a.len() > 0 {
        let (pa, pb) = (a.drop_last(), b.drop_last());
        assert(same_configs(pa, pb)) by {
            assert forall|i: int| 0 <= i < pa.len() implies (#[trigger] pa[i]).format == pb[i].format
                && pa[i].source_identifier@ == pb[i].source_identifier@ && pa[i].text@
                == pb[i].text@ by {
                assert(pa[i] == a[i] && pb[i] == b[i]);
            }
        }
        lemma_plan_deterministic(pa, pb, ctx);
        assert(a.last() == a[a.len() - 1]);
    }
}

/// Two eligible workflows give their tasks in the order of their source
/// identifiers, whichever order they come in: the tasks of the smaller first,
/// each in declared order, without repeated commands.
pub proof fn lemma_plan_two_in_source_order(wa: WorkflowView, wb: WorkflowView, ctx: ContextView)
    requires
        crate::order::bytes_lt(crate::order::source_key(wa), crate::order::source_key(wb)),
        spec_eligible(wa.triggers, ctx),
        spec_eligible(wb.triggers, ctx),
    ensures
        spec_plan(seq![wa, wb], ctx) == dedup(wa.tasks + wb.tasks),
        spec_plan(seq![wb, wa], ctx) == dedup(wa.tasks + wb.tasks),
{
    crate::order::lemma_bytes_lt_asymmetric(crate::order::source_key(wa), crate::order::source_key(wb));
    let e = Seq::<WorkflowView>::empty();
    assert(seq![wa].drop_last() =~= e);
    assert(seq![wb].drop_last() =~= e);
    assert(seq![wa, wb].drop_last() =~= seq![wa]);
    assert(seq![wb, wa].drop_last() =~= seq![wb]);
    assert(sort_by_source(e) == e);
    assert(crate::order::insert_pos(e, wa) == 0);
    assert(crate::order::insert_pos(e, wb) == 0);
    assert(e.insert(0, wa) =~= seq![wa]);
    assert(e.insert(0, wb) =~= seq![wb]);
    assert(sort_by_source(seq![wa]) =~= seq![wa]);
    assert(sort_by_source(seq![wb]) =~= seq![wb]);
    assert(seq![wa].drop_first() =~= e);
    assert(seq![wb].drop_first() =~= e);
    assert(crate::order::insert_pos(seq![wa], wb) == 1);
    assert(seq![wa].insert(1, wb) =~= seq![wa, wb]);
    assert(seq![wb].insert(0, wa) =~= seq![wa, wb]);
    assert(crate::order::insert_pos(seq![wb], wa) == 0);
    assert(sort_by_source(seq![wa, wb]) =~= seq![wa, wb]);
    assert(sort_by_source(seq![wb, wa]) =~= seq![wa, wb]);
    assert(eligible_only(e, ctx) == e);
    assert(e.push(wa) =~= seq![wa]);
    assert(eligible_only(seq![wa], ctx) =~= seq![wa]);
    assert(eligible_only(seq![wa, wb], ctx) =~= seq![wa, wb]);
    assert(all_tasks(e) == Seq::<TaskView>::empty());
    assert(Seq::<TaskView>::empty() + wa.tasks =~= wa.tasks);
    assert(all_tasks(seq![wa]) =~= wa.tasks);
    assert(all_tasks(seq![wa, wb]) =~= wa.tasks + wb.tasks);
}

/// Two eligible files, the first by source with tasks `[hello, goodbye]`,
/// the second with `[hello2, tough]` where `hello2` repeats the command of
/// `hello` and the other commands differ: the task list is
/// `[hello, goodbye, tough]`, whichever order the files come in.
pub proof fn lemma_cross_file_dedup(
    wa: WorkflowView,
    wb: WorkflowView,
    ctx: ContextView,
    hello: TaskView,
    goodbye: TaskView,
    hello2: TaskView,
    tough: TaskView,
)
    requires
        crate::order::bytes_lt(crate::order::source_key(wa), crate::order::source_key(wb)),
        spec_eligible(wa.triggers, ctx),
        spec_eligible(wb.triggers, ctx),
        wa.tasks == seq![hello, goodbye],
        wb.tasks == seq![hello2, tough],
        hello2.command == hello.command,
        goodbye.command != hello.command,
        tough.command != hello.command,
        tough.command != goodbye.command,
    ensures
        spec_plan(seq![wa, wb], ctx) == seq![hello, goodbye, tough],
        spec_plan(seq![wb, wa], ctx) == seq![hello, goodbye, tough],
{
    lemma_plan_two_in_source_order(wa, wb, ctx);
    let s = wa.tasks + wb.tasks;
    assert(s =~= seq![hello, goodbye, hello2, tough]);
    let e = Seq::<TaskView>::empty();
    let s1 = seq![hello];
    let s2 = seq![hello, goodbye];
    let s3 = seq![hello, goodbye, hello2];
    assert(s1.drop_last() =~= e);
    assert(s2.drop_last() =~= s1);
    assert(s3.drop_last() =~= s2);
    assert(s.drop_last() =~= s3);
    assert(dedup(e) == e);
    assert(!has_command(e, hello.command));
    assert(e.push(hello) =~= s1);
    assert(dedup(s1) == s1);
    assert(!has_command(s1, goodbye.command)) by {
        assert forall|i: int| 0 <= i < s1.len() implies (#[trigger] s1[i]).command
            != goodbye.command by {
            assert(s1[i] == hello);
        }
    }
    assert(s1.push(goodbye) =~= s2);
    assert(dedup(s2) == s2);
    assert(s2[0].command == hello2.command);
    assert(has_command(s2, hello2.command));
    assert(dedup(s3) == s2);
    assert(!has_command(s2, tough.command)) by {
        assert forall|i: int| 0 <= i < s2.len() implies (#[trigger] s2[i]).command
            != tough.command by {
            if i == 0 {
                assert(s2[i] == hello);
            } else {
                assert(s2[i] == goodbye);
            }
        }
    }
    assert(s2.push(tough) =~= seq![hello, goodbye, tough]);
}

} // verus!
