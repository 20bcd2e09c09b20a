use vstd::prelude::*;

verus! {

/// The facts about the local repository that decide which workflows apply.
#[derive(Debug)]
pub struct RepositoryContext {
    pub current_branch: String,
    pub has_configured_remote: bool,
}

/// The event that a trigger rule reacts to.
#[derive(Debug)]
pub enum TriggerEvent {
    /// An update that a hosted platform would see as a plain push.
    DirectUpdate,
    /// An update that would reach the platform as a pull or merge request.
    ProposedChange,
    /// Any event at all: used by formats that have no triggers.
    Always,
    /// An event that never happens locally, by its name.
    Other(String),
}

/// One trigger: an event, and the branches it is restricted to, if any.
#[derive(Debug)]
pub struct TriggerRule {
    pub event: TriggerEvent,
    pub branch_filter: Option<Vec<String>>,
}

/// One check: an optional display name and a shell command line.
#[derive(Debug)]
pub struct TaskDefinition {
    pub name: Option<String>,
    pub command: String,
}

/// One parsed configuration file.
#[derive(Debug)]
pub struct WorkflowDefinition {
    pub source_identifier: String,
    pub triggers: Vec<TriggerRule>,
    pub tasks: Vec<TaskDefinition>,
}

pub enum EventView {
    DirectUpdate,
    ProposedChange,
    Always,
    Other(Seq<char>),
}

pub struct TriggerView {
    pub event: EventView,
    pub branch_filter: Option<Seq<Seq<char>>>,
}

pub struct TaskView {
    pub name: Option<Seq<char>>,
    pub command: Seq<char>,
}

pub struct WorkflowView {
    pub source_identifier: Seq<char>,
    pub triggers: Seq<TriggerView>,
    pub tasks: Seq<TaskView>,
}

pub struct ContextView {
    pub current_branch: Seq<char>,
    pub has_configured_remote: bool,
}

pub open spec fn strings_view(v: Seq<String>) -> Seq<Seq<char>> {
    v.map_values(|s: String| s@)
}

impl View for RepositoryContext {
    type V = ContextView;

    open spec fn view(&self) -> ContextView {
        ContextView {
            current_branch: self.current_branch@,
            has_configured_remote: self.has_configured_remote,
        }
    }
}

impl View for TriggerEvent {
    type V = EventView;

    open spec fn view(&self) -> EventView {
        match self {
            TriggerEvent::DirectUpdate => EventView::DirectUpdate,
            TriggerEvent::ProposedChange => EventView::ProposedChange,
            TriggerEvent::Always => EventView::Always,
            TriggerEvent::Other(s) => EventView::Other(s@),
        }
    }
}

impl View for TriggerRule {
    type V = TriggerView;

    open spec fn view(&self) -> TriggerView {
        TriggerView {
            event: self.event@,
            branch_filter: match self.branch_filter {
                Some(b) => Some(strings_view(b@)),
                None => None,
            },
        }
    }
}

impl View for TaskDefinition {
    type V = TaskView;

    open spec fn view(&self) -> TaskView {
        TaskView {
            name: match self.name {
                Some(n) => Some(n@),
                None => None,
            },
            command: self.command@,
        }
    }
}

pub open spec fn tasks_view(v: Seq<TaskDefinition>) -> Seq<TaskView> {
    v.map_values(|t: TaskDefinition| t@)
}

pub open spec fn triggers_view(v: Seq<TriggerRule>) -> Seq<TriggerView> {
    v.map_values(|t: TriggerRule| t@)
}

impl View for WorkflowDefinition {
    type V = WorkflowView;

    open spec fn view(&self) -> WorkflowView {
        WorkflowView {
            source_identifier: self.source_identifier@,
            triggers: triggers_view(self.triggers@),
            tasks: tasks_view(self.tasks@),
        }
    }
}

pub open spec fn workflows_view(v: Seq<WorkflowDefinition>) -> Seq<WorkflowView> {
    v.map_values(|w: WorkflowDefinition| w@)
}

impl TaskDefinition {
    pub fn clone_task(&self) -> (r: TaskDefinition)
        ensures
            r@ == self@,
    {
        TaskDefinition {
            name: match &self.name {
                Some(n) => Some(n.clone()),
                None => None,
            },
            command: self.command.clone(),
        }
    }
}

} // verus!
