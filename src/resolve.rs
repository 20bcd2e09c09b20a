use vstd::prelude::*;
use crate::model::{
    ContextView, EventView, RepositoryContext, TriggerEvent, TriggerRule, TriggerView,
    WorkflowDefinition,
};

verus! {

/// The event that is happening locally: a proposed change when a remote is
/// configured, a direct update otherwise.
pub open spec fn active_event(ctx: ContextView) -> EventView {
    if ctx.has_configured_remote {
        EventView::ProposedChange
    } else {
        EventView::DirectUpdate
    }
}

pub open spec fn event_matches(rule: EventView, active: EventView) -> bool {
    match rule {
        EventView::Always => true,
        EventView::DirectUpdate => active is DirectUpdate,
        EventView::ProposedChange => active is ProposedChange,
        EventView::Other(_) => false,
    }
}

pub open spec fn branch_allowed(filter: Option<Seq<Seq<char>>>, branch: Seq<char>) -> bool {
    match filter {
        None => true,
        Some(f) => f.contains(branch),
    }
}

pub open spec fn rule_applies(rule: TriggerView, ctx: ContextView) -> bool {
    event_matches(rule.event, active_event(ctx)) && branch_allowed(
        rule.branch_filter,
        ctx.current_branch,
    )
}

/// A workflow is eligible when one of its rules reacts to the active event
/// and admits the current branch.
pub open spec fn spec_eligible(triggers: Seq<TriggerView>, ctx: ContextView) -> bool {
    exists|i: int| 0 <= i < triggers.len() && rule_applies(#[trigger] triggers[i], ctx)
}

fn event_matches_now(event: &TriggerEvent, has_remote: bool) -> (r: bool)
    ensures
        r == event_matches(
            event@,
            active_event(ContextView { current_branch: Seq::empty(), has_configured_remote: has_remote }),
        ),
{
    match event {
        TriggerEvent::Always => true,
        TriggerEvent::DirectUpdate => !has_remote,
        TriggerEvent::ProposedChange => has_remote,
        TriggerEvent::Other(_) => false,
    }
}

fn branch_in(filter: &Vec<String>, branch: &String) -> (r: bool)
    ensures
        r == crate::model::strings_view(filter@).contains(branch@),
{
    let ghost fv = crate::model::strings_view(filter@);
    let mut i: usize = 0;
    while i < filter.len()
        invariant
            0 <= i <= filter.len(),
            fv == crate::model::strings_view(filter@),
            forall|k: int| 0 <= k < i ==> fv[k] != branch@,
        decreases filter.len() - i,
    {
        if filter[i] == *branch {
            assert(fv[i as int] == branch@);
            return true;
        }
        i = i + 1;
    }
    false
}

fn rule_applies_now(rule: &TriggerRule, ctx: &RepositoryContext) -> (r: bool)
    ensures
        r == rule_applies(rule@, ctx@),
{
    if !event_matches_now(&rule.event, ctx.has_configured_remote) {
        return false;
    }
    match &rule.branch_filter {
        None => true,
        Some(f) => branch_in(f, &ctx.current_branch),
    }
}

/// Decides whether the workflow's tasks run at all in the given context.
pub fn is_eligible(workflow: &WorkflowDefinition, ctx: &RepositoryContext) -> (r: bool)
    ensures
        r == spec_eligible(workflow@.triggers, ctx@),
{
    let ghost tv = workflow@.triggers;
    let mut i: usize = 0;
    while i < workflow.triggers.len()
        invariant
            0 <= i <= workflow.triggers.len(),
            tv == workflow@.triggers,
            tv.len() == workflow.triggers.len(),
            forall|k: int| 0 <= k < i ==> !rule_applies(#[trigger] tv[k], ctx@),
        decreases workflow.triggers.len() - i,
    {
        if rule_applies_now(&workflow.triggers[i], ctx) {
            assert(rule_applies(tv[i as int], ctx@));
            return true;
        }
        i = i + 1;
    }
    false
}

} // verus!
