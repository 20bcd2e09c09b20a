use vstd::prelude::*;
use crate::model::{
    strings_view,     tasks_view, triggers_view, EventView, TaskDefinition, TaskView, TriggerEvent, TriggerRule,
    TriggerView, WorkflowDefinition,
};
use crate::yaml::{lines_short_enough, lines_within, parse_yaml, yaml_document, Yaml};
use vstd::utf8::encode_utf8;

verus! {

/// The two supported configuration formats.
#[derive(Clone, Copy, Debug, PartialEq, Eq, Structural)]
pub enum Format {
    /// Trigger-aware: an `on` section of events and a `jobs` section whose
    /// jobs hold ordered `steps`.
    GitHub,
    /// Flat: each top-level entry is a job with a single script line.
    GitLab,
}

/// Why no task list could be made.
#[derive(Debug)]
pub enum ConfigError {
    /// No configuration was found at all.
    ConfigNotFound,
    /// The configuration with this source identifier does not describe a workflow.
    MalformedConfig(String),
}

/// Concatenates what `f` makes of each element, in order; nothing if `f`
/// rejects any element.
pub open spec fn gather<A, B>(s: Seq<A>, f: spec_fn(A) -> Option<Seq<B>>) -> Option<Seq<B>>
    decreases s.len(),
{
    if s.len() == 0 {
        Some(Seq::empty())
    } else {
        match gather(s.drop_last(), f) {
            None => None,
            Some(a) => match f(s.last()) {
                None => None,
                Some(b) => Some(a + b),
            },
        }
    }
}

proof fn lemma_gather_step<A, B>(s: Seq<A>, f: spec_fn(A) -> Option<Seq<B>>, i: int)
    requires
        0 <= i < s.len(),
    ensures
        gather(s.take(i + 1), f) == match gather(s.take(i), f) {
            None => None,
            Some(a) => match f(s[i]) {
                None => None,
                Some(b) => Some(a + b),
            },
        },
{
    assert(s.take(i + 1).drop_last() =~= s.take(i));
}

proof fn lemma_gather_fails<A, B>(s: Seq<A>, f: spec_fn(A) -> Option<Seq<B>>, i: int)
    requires
        0 <= i <= s.len(),
        gather(s.take(i), f) is None,
    ensures
        gather(s, f) is None,
    decreases s.len() - i,
{
    if i == s.len() {
        assert(s.take(i) =~= s);
    } else {
        lemma_gather_step(s, f, i);
        lemma_gather_fails(s, f, i + 1);
    }
}

proof fn lemma_gather_done<A, B>(s: Seq<A>, f: spec_fn(A) -> Option<Seq<B>>)
    ensures
        gather(s.take(s.len() as int), f) == gather(s, f),
{
    assert(s.take(s.len() as int) =~= s);
}

pub open spec fn text_of(v: Yaml) -> Option<Seq<char>> {
    match v {
        Yaml::Text(s) => Some(s@),
        _ => None,
    }
}

/// The value under the first entry whose key is the text `key`.
pub open spec fn lookup(entries: Seq<(Yaml, Yaml)>, key: Seq<char>) -> Option<Yaml>
    decreases entries.len(),
{
    if entries.len() == 0 {
        None
    } else if text_of(entries[0].0) == Some(key) {
        Some(entries[0].1)
    } else {
        lookup(entries.drop_first(), key)
    }
}

fn text_is(v: &Yaml, key: &str) -> (r: bool)
    ensures
        r == (text_of(*v) == Some(key@)),
{
    match v {
        Yaml::Text(s) => *s == String::from_str(key),
        _ => false,
    }
}

fn text(v: &Yaml) -> (r: Option<String>)
    ensures
        match r {
            Some(s) => text_of(*v) == Some(s@),
            None => text_of(*v) is None,
        },
{
    match v {
        Yaml::Text(s) => Some(s.clone()),
        _ => None,
    }
}

fn lookup_in<'a>(entries: &'a Vec<(Yaml, Yaml)>, key: &str) -> (r: Option<&'a Yaml>)
    ensures
        match r {
            Some(x) => lookup(entries@, key@) == Some(*x),
            None => lookup(entries@, key@) is None,
        },
{
    let mut i: usize = 0;
    assert(entries@.subrange(0, entries@.len() as int) =~= entries@);
    while i < entries.len()
        invariant
            0 <= i <= entries.len(),
            lookup(entries@, key@) == lookup(entries@.subrange(i as int, entries@.len() as int), key@),
        decreases entries.len() - i,
    {
        let ghost rest = entries@.subrange(i as int, entries@.len() as int);
        assert(rest[0] == entries@[i as int]);
        if text_is(&entries[i].0, key) {
            return Some(&entries[i].1);
        }
        assert(rest.drop_first() =~= entries@.subrange(i as int + 1, entries@.len() as int));
        i = i + 1;
    }
    None
}

// ---- the trigger-aware format ----

pub open spec fn event_of(name: Seq<char>) -> EventView {
    if name == "push"@ {
        EventView::DirectUpdate
    } else if name == "pull_request"@ {
        EventView::ProposedChange
    } else {
        EventView::Other(name)
    }
}

pub open spec fn text_item(v: Yaml) -> Option<Seq<Seq<char>>> {
    match text_of(v) {
        Some(s) => Some(seq![s]),
        None => None,
    }
}

pub open spec fn text_item_fn() -> spec_fn(Yaml) -> Option<Seq<Seq<char>>> {
    |v: Yaml| text_item(v)
}

/// A list of branch names.
pub open spec fn branch_list(v: Yaml) -> Option<Seq<Seq<char>>> {
    match v {
        Yaml::List(items) => gather(items@, text_item_fn()),
        _ => None,
    }
}

/// The branch restriction under an event: none for an empty entry or one
/// without `branches`; the outer `None` marks a malformed entry.
pub open spec fn filter_of(v: Yaml) -> Option<Option<Seq<Seq<char>>>> {
    match v {
        Yaml::Null => Some(None),
        Yaml::List(_) => match branch_list(v) {
            Some(b) => Some(Some(b)),
            None => None,
        },
        Yaml::Dict(e) => match lookup(e@, "branches"@) {
            None => Some(None),
            Some(b) => match branch_list(b) {
                Some(l) => Some(Some(l)),
                None => None,
            },
        },
        _ => None,
    }
}

pub open spec fn trigger_entry(e: (Yaml, Yaml)) -> Option<Seq<TriggerView>> {
    match (text_of(e.0), filter_of(e.1)) {
        (Some(n), Some(f)) => Some(seq![TriggerView { event: event_of(n), branch_filter: f }]),
        _ => None,
    }
}

pub open spec fn trigger_entry_fn() -> spec_fn((Yaml, Yaml)) -> Option<Seq<TriggerView>> {
    |e: (Yaml, Yaml)| trigger_entry(e)
}

pub open spec fn trigger_item(v: Yaml) -> Option<Seq<TriggerView>> {
    match text_of(v) {
        Some(n) => Some(seq![TriggerView { event: event_of(n), branch_filter: None }]),
        None => None,
    }
}

pub open spec fn trigger_item_fn() -> spec_fn(Yaml) -> Option<Seq<TriggerView>> {
    |v: Yaml| trigger_item(v)
}

/// The trigger rules of an `on` section: a single event, a list of events,
/// or a mapping of events to branch restrictions; no section, no rules.
pub open spec fn triggers_of(on: Option<Yaml>) -> Option<Seq<TriggerView>> {
    match on {
        None => Some(Seq::empty()),
        Some(v) => match v {
            Yaml::Text(s) => Some(seq![TriggerView { event: event_of(s@), branch_filter: None }]),
            Yaml::List(items) => gather(items@, trigger_item_fn()),
            Yaml::Dict(e) => gather(e@, trigger_entry_fn()),
            _ => None,
        },
    }
}

/// A step: a bare command, or a mapping with `run` and an optional `name`.
/// A mapping without `run` runs nothing.
pub open spec fn step_tasks(v: Yaml) -> Option<Seq<TaskView>> {
    match v {
        Yaml::Text(s) => Some(seq![TaskView { name: None, command: s@ }]),
        Yaml::Dict(e) => match lookup(e@, "run"@) {
            None => Some(Seq::empty()),
            Some(run) => match text_of(run) {
                None => None,
                Some(c) => match lookup(e@, "name"@) {
                    None => Some(seq![TaskView { name: None, command: c }]),
                    Some(n) => match text_of(n) {
                        Some(nm) => Some(seq![TaskView { name: Some(nm), command: c }]),
                        None => None,
                    },
                },
            },
        },
        _ => None,
    }
}

pub open spec fn step_tasks_fn() -> spec_fn(Yaml) -> Option<Seq<TaskView>> {
    |v: Yaml| step_tasks(v)
}

/// A job: a mapping whose `steps` is a list of steps.
pub open spec fn job_tasks(e: (Yaml, Yaml)) -> Option<Seq<TaskView>> {
    match e.1 {
        Yaml::Dict(fields) => match lookup(fields@, "steps"@) {
            Some(st) => match st {
                Yaml::List(items) => gather(items@, step_tasks_fn()),
                _ => None,
            },
            None => None,
        },
        _ => None,
    }
}

pub open spec fn job_tasks_fn() -> spec_fn((Yaml, Yaml)) -> Option<Seq<TaskView>> {
    |e: (Yaml, Yaml)| job_tasks(e)
}

/// Triggers and tasks of a document in the trigger-aware format.
pub open spec fn github_workflow(doc: Yaml) -> Option<(Seq<TriggerView>, Seq<TaskView>)> {
    match doc {
        Yaml::Dict(e) => match (triggers_of(lookup(e@, "on"@)), lookup(e@, "jobs"@)) {
            (Some(t), Some(j)) => match j {
                Yaml::Dict(je) => match gather(je@, job_tasks_fn()) {
                    Some(ts) => Some((t, ts)),
                    None => None,
                },
                _ => None,
            },
            _ => None,
        },
        _ => None,
    }
}

// ---- the flat format ----

/// A flat job's command: a string, or a mapping whose `script` is a string
/// or a list of one string.
pub open spec fn script_of(v: Yaml) -> Option<Seq<char>> {
    match v {
        Yaml::Text(s) => Some(s@),
        Yaml::Dict(e) => match lookup(e@, "script"@) {
            Some(sc) => match sc {
                Yaml::Text(s) => Some(s@),
                Yaml::List(items) => if items@.len() == 1 {
                    text_of(items@[0])
                } else {
                    None
                },
                _ => None,
            },
            None => None,
        },
        _ => None,
    }
}

pub open spec fn flat_job(e: (Yaml, Yaml)) -> Option<Seq<TaskView>> {
    match (text_of(e.0), script_of(e.1)) {
        (Some(n), Some(c)) => Some(seq![TaskView { name: Some(n), command: c }]),
        _ => None,
    }
}

pub open spec fn flat_job_fn() -> spec_fn((Yaml, Yaml)) -> Option<Seq<TaskView>> {
    |e: (Yaml, Yaml)| flat_job(e)
}

pub open spec fn always_rule() -> TriggerView {
    TriggerView { event: EventView::Always, branch_filter: None }
}

/// Triggers and tasks of a document in the flat format: one rule that always
/// matches, one task per job.
pub open spec fn gitlab_workflow(doc: Yaml) -> Option<(Seq<TriggerView>, Seq<TaskView>)> {
    match doc {
        Yaml::Dict(e) => match gather(e@, flat_job_fn()) {
            Some(ts) => Some((seq![always_rule()], ts)),
            None => None,
        },
        _ => None,
    }
}

pub open spec fn spec_workflow(format: Format, doc: Yaml) -> Option<(Seq<TriggerView>, Seq<TaskView>)> {
    match format {
        Format::GitHub => github_workflow(doc),
        Format::GitLab => gitlab_workflow(doc),
    }
}


fn event_from(name: String) -> (r: TriggerEvent)
    ensures
        r@ == event_of(name@),
{
    if name == String::from_str("push") {
        TriggerEvent::DirectUpdate
    } else if name == String::from_str("pull_request") {
        TriggerEvent::ProposedChange
    } else {
        TriggerEvent::Other(name)
    }
}

fn branch_list_exec(v: &Yaml) -> (r: Option<Vec<String>>)
    ensures
        match r {
            Some(b) => branch_list(*v) == Some(strings_view(b@)),
            None => branch_list(*v) is None,
        },
{
    match v {
        Yaml::List(items) => {
            let mut out: Vec<String> = Vec::new();
            let mut i: usize = 0;
            assert(items@.take(0) =~= Seq::<Yaml>::empty());
            assert(strings_view(out@) =~= Seq::<Seq<char>>::empty());
            while i < items.len()
                invariant
                    0 <= i <= items.len(),
                    *v == Yaml::List(*items),
                    gather(items@.take(i as int), text_item_fn()) == Some(strings_view(out@)),
                decreases items.len() - i,
            {
                proof {
                    lemma_gather_step(items@, text_item_fn(), i as int);
                }
                match text(&items[i]) {
                    Some(s) => {
                        let ghost prev = out@;
                        out.push(s);
                        assert(strings_view(out@) =~= strings_view(prev) + seq![s@]);
                    },
                    None => {
                        proof {
                            lemma_gather_fails(items@, text_item_fn(), i as int + 1);
                        }
                        return None;
                    },
                }
                i = i + 1;
            }
            proof {
                lemma_gather_done(items@, text_item_fn());
            }
            Some(out)
        },
        _ => None,
    }
}

fn filter_exec(v: &Yaml) -> (r: Option<Option<Vec<String>>>)
    ensures
        match r {
            Some(Some(b)) => filter_of(*v) == Some(Some(strings_view(b@))),
            Some(None) => filter_of(*v) == Some(None::<Seq<Seq<char>>>),
            None => filter_of(*v) is None,
        },
{
    match v {
        Yaml::Null => Some(None),
        Yaml::List(_) => match branch_list_exec(v) {
            Some(b) => Some(Some(b)),
            None => None,
        },
        Yaml::Dict(e) => match lookup_in(e, "branches") {
            None => Some(None),
            Some(b) => match branch_list_exec(b) {
                Some(l) => Some(Some(l)),
                None => None,
            },
        },
        _ => None,
    }
}

fn trigger_entry_exec(k: &Yaml, x: &Yaml) -> (r: Option<TriggerRule>)
    ensures
        match r {
            Some(rule) => trigger_entry((*k, *x)) == Some(seq![rule@]),
            None => trigger_entry((*k, *x)) is None,
        },
{
    match (text(k), filter_exec(x)) {
        (Some(n), Some(f)) => {
            let rule = TriggerRule { event: event_from(n), branch_filter: f };
            Some(rule)
        },
        _ => None,
    }
}

fn trigger_item_exec(v: &Yaml) -> (r: Option<TriggerRule>)
    ensures
        match r {
            Some(rule) => trigger_item(*v) == Some(seq![rule@]),
            None => trigger_item(*v) is None,
        },
{
    match text(v) {
        Some(n) => Some(TriggerRule { event: event_from(n), branch_filter: None }),
        None => None,
    }
}

fn trigger_items_exec(items: &Vec<Yaml>) -> (r: Option<Vec<TriggerRule>>)
    ensures
        match r {
            Some(rs) => gather(items@, trigger_item_fn()) == Some(triggers_view(rs@)),
            None => gather(items@, trigger_item_fn()) is None,
        },
{
    let mut out: Vec<TriggerRule> = Vec::new();
    let mut i: usize = 0;
    assert(items@.take(0) =~= Seq::<Yaml>::empty());
    assert(triggers_view(out@) =~= Seq::<TriggerView>::empty());
    while i < items.len()
        invariant
            0 <= i <= items.len(),
            gather(items@.take(i as int), trigger_item_fn()) == Some(triggers_view(out@)),
        decreases items.len() - i,
    {
        proof {
            lemma_gather_step(items@, trigger_item_fn(), i as int);
        }
        match trigger_item_exec(&items[i]) {
            Some(rule) => {
                let ghost prev = out@;
                out.push(rule);
                assert(triggers_view(out@) =~= triggers_view(prev) + seq![rule@]);
            },
            None => {
                proof {
                    lemma_gather_fails(items@, trigger_item_fn(), i as int + 1);
                }
                return None;
            },
        }
        i = i + 1;
    }
    proof {
        lemma_gather_done(items@, trigger_item_fn());
    }
    Some(out)
}

fn trigger_entries_exec(entries: &Vec<(Yaml, Yaml)>) -> (r: Option<Vec<TriggerRule>>)
    ensures
        match r {
            Some(rs) => gather(entries@, trigger_entry_fn()) == Some(triggers_view(rs@)),
            None => gather(entries@, trigger_entry_fn()) is None,
        },
{
    let mut out: Vec<TriggerRule> = Vec::new();
    let mut i: usize = 0;
    assert(entries@.take(0) =~= Seq::<(Yaml, Yaml)>::empty());
    assert(triggers_view(out@) =~= Seq::<TriggerView>::empty());
    while i < entries.len()
        invariant
            0 <= i <= entries.len(),
            gather(entries@.take(i as int), trigger_entry_fn()) == Some(triggers_view(out@)),
        decreases entries.len() - i,
    {
        proof {
            lemma_gather_step(entries@, trigger_entry_fn(), i as int);
        }
        match trigger_entry_exec(&entries[i].0, &entries[i].1) {
            Some(rule) => {
                let ghost prev = out@;
                out.push(rule);
                assert(triggers_view(out@) =~= triggers_view(prev) + seq![rule@]);
            },
            None => {
                proof {
                    lemma_gather_fails(entries@, trigger_entry_fn(), i as int + 1);
                }
                return None;
            },
        }
        i = i + 1;
    }
    proof {
        lemma_gather_done(entries@, trigger_entry_fn());
    }
    Some(out)
}

fn triggers_exec(on: Option<&Yaml>) -> (r: Option<Vec<TriggerRule>>)
    ensures
        ({
            let spec_on = match on {
                Some(v) => Some(*v),
                None => None,
            };
            match r {
                Some(rs) => triggers_of(spec_on) == Some(triggers_view(rs@)),
                None => triggers_of(spec_on) is None,
            }
        }),
{
    match on {
        None => {
            let out: Vec<TriggerRule> = Vec::new();
            assert(triggers_view(out@) =~= Seq::<TriggerView>::empty());
            Some(out)
        },
        Some(v) => match v {
            Yaml::Text(s) => {
                let rule = TriggerRule { event: event_from(s.clone()), branch_filter: None };
                let out = vec![rule];
                assert(triggers_view(out@) =~= seq![rule@]);
                Some(out)
            },
            Yaml::List(items) => trigger_items_exec(items),
            Yaml::Dict(e) => trigger_entries_exec(e),
            _ => None,
        },
    }
}

fn one_task(name: Option<String>, command: String) -> (r: Vec<TaskDefinition>)
    ensures
        tasks_view(r@) == seq![TaskDefinition { name, command }@],
{
    let out = vec![TaskDefinition { name, command }];
    assert(tasks_view(out@) =~= seq![out@[0]@]);
    out
}

fn step_exec(v: &Yaml) -> (r: Option<Vec<TaskDefinition>>)
    ensures
        match r {
            Some(ts) => step_tasks(*v) == Some(tasks_view(ts@)),
            None => step_tasks(*v) is None,
        },
{
    match v {
        Yaml::Text(s) => Some(one_task(None, s.clone())),
        Yaml::Dict(e) => match lookup_in(e, "run") {
            None => {
                let out: Vec<TaskDefinition> = Vec::new();
                assert(tasks_view(out@) =~= Seq::<TaskView>::empty());
                Some(out)
            },
            Some(run) => match text(run) {
                None => None,
                Some(c) => match lookup_in(e, "name") {
                    None => Some(one_task(None, c)),
                    Some(n) => match text(n) {
                        Some(nm) => Some(one_task(Some(nm), c)),
                        None => None,
                    },
                },
            },
        },
        _ => None,
    }
}

fn steps_exec(items: &Vec<Yaml>) -> (r: Option<Vec<TaskDefinition>>)
    ensures
        match r {
            Some(ts) => gather(items@, step_tasks_fn()) == Some(tasks_view(ts@)),
            None => gather(items@, step_tasks_fn()) is None,
        },
{
    let mut out: Vec<TaskDefinition> = Vec::new();
    let mut i: usize = 0;
    assert(items@.take(0) =~= Seq::<Yaml>::empty());
    assert(tasks_view(out@) =~= Seq::<TaskView>::empty());
    while i < items.len()
        invariant
            0 <= i <= items.len(),
            gather(items@.take(i as int), step_tasks_fn()) == Some(tasks_view(out@)),
        decreases items.len() - i,
    {
        proof {
            lemma_gather_step(items@, step_tasks_fn(), i as int);
        }
        match step_exec(&items[i]) {
            Some(ts) => {
                let ghost prev = out@;
                let ghost piece = ts@;
                let mut ts = ts;
                out.append(&mut ts);
                assert(tasks_view(out@) =~= tasks_view(prev) + tasks_view(piece));
            },
            None => {
                proof {
                    lemma_gather_fails(items@, step_tasks_fn(), i as int + 1);
                }
                return None;
            },
        }
        i = i + 1;
    }
    proof {
        lemma_gather_done(items@, step_tasks_fn());
    }
    Some(out)
}

fn job_exec(k: &Yaml, x: &Yaml) -> (r: Option<Vec<TaskDefinition>>)
    ensures
        match r {
            Some(ts) => job_tasks((*k, *x)) == Some(tasks_view(ts@)),
            None => job_tasks((*k, *x)) is None,
        },
{
    match x {
        Yaml::Dict(fields) => match lookup_in(fields, "steps") {
            Some(st) => match st {
                Yaml::List(items) => steps_exec(items),
                _ => None,
            },
            None => None,
        },
        _ => None,
    }
}

fn jobs_exec(entries: &Vec<(Yaml, Yaml)>) -> (r: Option<Vec<TaskDefinition>>)
    ensures
        match r {
            Some(ts) => gather(entries@, job_tasks_fn()) == Some(tasks_view(ts@)),
            None => gather(entries@, job_tasks_fn()) is None,
        },
{
    let mut out: Vec<TaskDefinition> = Vec::new();
    let mut i: usize = 0;
    assert(entries@.take(0) =~= Seq::<(Yaml, Yaml)>::empty());
    assert(tasks_view(out@) =~= Seq::<TaskView>::empty());
    while i < entries.len()
        invariant
            0 <= i <= entries.len(),
            gather(entries@.take(i as int), job_tasks_fn()) == Some(tasks_view(out@)),
        decreases entries.len() - i,
    {
        proof {
            lemma_gather_step(entries@, job_tasks_fn(), i as int);
        }
        match job_exec(&entries[i].0, &entries[i].1) {
            Some(ts) => {
                let ghost prev = out@;
                let ghost piece = ts@;
                let mut ts = ts;
                out.append(&mut ts);
                assert(tasks_view(out@) =~= tasks_view(prev) + tasks_view(piece));
            },
            None => {
                proof {
                    lemma_gather_fails(entries@, job_tasks_fn(), i as int + 1);
                }
                return None;
            },
        }
        i = i + 1;
    }
    proof {
        lemma_gather_done(entries@, job_tasks_fn());
    }
    Some(out)
}

fn github_exec(doc: &Yaml) -> (r: Option<(Vec<TriggerRule>, Vec<TaskDefinition>)>)
    ensures
        match r {
            Some((t, ts)) => github_workflow(*doc) == Some((triggers_view(t@), tasks_view(ts@))),
            None => github_workflow(*doc) is None,
        },
{
    match doc {
        Yaml::Dict(e) => {
            let triggers = match triggers_exec(lookup_in(e, "on")) {
                Some(t) => t,
                None => return None,
            };
            match lookup_in(e, "jobs") {
                Some(j) => match j {
                    Yaml::Dict(je) => match jobs_exec(je) {
                        Some(ts) => Some((triggers, ts)),
                        None => None,
                    },
                    _ => None,
                },
                None => None,
            }
        },
        _ => None,
    }
}

fn script_exec(v: &Yaml) -> (r: Option<String>)
    ensures
        match r {
            Some(s) => script_of(*v) == Some(s@),
            None => script_of(*v) is None,
        },
{
    match v {
        Yaml::Text(s) => Some(s.clone()),
        Yaml::Dict(e) => match lookup_in(e, "script") {
            Some(sc) => match sc {
                Yaml::Text(s) => Some(s.clone()),
                Yaml::List(items) => if items.len() == 1 {
                    text(&items[0])
                } else {
                    None
                },
                _ => None,
            },
            None => None,
        },
        _ => None,
    }
}

fn flat_jobs_exec(entries: &Vec<(Yaml, Yaml)>) -> (r: Option<Vec<TaskDefinition>>)
    ensures
        match r {
            Some(ts) => gather(entries@, flat_job_fn()) == Some(tasks_view(ts@)),
            None => gather(entries@, flat_job_fn()) is None,
        },
{
    let mut out: Vec<TaskDefinition> = Vec::new();
    let mut i: usize = 0;
    assert(entries@.take(0) =~= Seq::<(Yaml, Yaml)>::empty());
    assert(tasks_view(out@) =~= Seq::<TaskView>::empty());
    while i < entries.len()
        invariant
            0 <= i <= entries.len(),
            gather(entries@.take(i as int), flat_job_fn()) == Some(tasks_view(out@)),
        decreases entries.len() - i,
    {
        proof {
            lemma_gather_step(entries@, flat_job_fn(), i as int);
        }
        match (text(&entries[i].0), script_exec(&entries[i].1)) {
            (Some(n), Some(c)) => {
                let ghost prev = out@;
                let t = TaskDefinition { name: Some(n), command: c };
                let ghost tv = t@;
                out.push(t);
                assert(tasks_view(out@) =~= tasks_view(prev) + seq![tv]);
            },
            _ => {
                proof {
                    lemma_gather_fails(entries@, flat_job_fn(), i as int + 1);
                }
                return None;
            },
        }
        i = i + 1;
    }
    proof {
        lemma_gather_done(entries@, flat_job_fn());
    }
    Some(out)
}

fn gitlab_exec(doc: &Yaml) -> (r: Option<(Vec<TriggerRule>, Vec<TaskDefinition>)>)
    ensures
        match r {
            Some((t, ts)) => gitlab_workflow(*doc) == Some((triggers_view(t@), tasks_view(ts@))),
            None => gitlab_workflow(*doc) is None,
        },
{
    match doc {
        Yaml::Dict(e) => match flat_jobs_exec(e) {
            Some(ts) => {
                let rule = TriggerRule { event: TriggerEvent::Always, branch_filter: None };
                let t = vec![rule];
                assert(triggers_view(t@) =~= seq![always_rule()]);
                Some((t, ts))
            },
            None => None,
        },
        _ => None,
    }
}

/// `r` is the workflow named `source` that `outcome` describes, or the
/// malformed-configuration error for `source` when there is none.
pub open spec fn parsed_as(
    r: Result<WorkflowDefinition, ConfigError>,
    source: Seq<char>,
    outcome: Option<(Seq<TriggerView>, Seq<TaskView>)>,
) -> bool {
    match outcome {
        Some((t, ts)) => r is Ok && r->Ok_0@ == crate::model::WorkflowView {
            source_identifier: source,
            triggers: t,
            tasks: ts,
        },
        None => r is Err && r->Err_0 is MalformedConfig && r->Err_0->MalformedConfig_0@ == source,
    }
}

/// Normalises a parsed YAML document in the given format into a workflow.
pub fn workflow_from_yaml(format: Format, source: String, doc: &Yaml) -> (r: Result<
    WorkflowDefinition,
    ConfigError,
>)
    ensures
        parsed_as(r, source@, spec_workflow(format, *doc)),
{
    let found = match format {
        Format::GitHub => github_exec(doc),
        Format::GitLab => gitlab_exec(doc),
    };
    match found {
        Some((triggers, tasks)) => Ok(WorkflowDefinition { source_identifier: source, triggers, tasks }),
        None => Err(ConfigError::MalformedConfig(source)),
    }
}

/// What a configuration text parses to in the given format: nothing when a
/// line is too long to parse, when the text is not a YAML document, or when
/// the document does not have the format's shape.
pub open spec fn spec_parse_text(format: Format, text: Seq<char>) -> Option<
    (Seq<TriggerView>, Seq<TaskView>),
> {
    if !lines_within(encode_utf8(text)) {
        None
    } else {
        match yaml_document(text) {
            Some(doc) => spec_workflow(format, doc),
            None => None,
        }
    }
}

/// Parses configuration text in the given format into a workflow; text with
/// an overlong line, text that is not YAML, or a document without the
/// format's shape is malformed.
pub fn parse_workflow(format: Format, source: String, text: &str) -> (r: Result<
    WorkflowDefinition,
    ConfigError,
>)
    ensures
        parsed_as(r, source@, spec_parse_text(format, text@)),
{
    if !lines_short_enough(text) {
        return Err(ConfigError::MalformedConfig(source));
    }
    match parse_yaml(text) {
        Ok(doc) => workflow_from_yaml(format, source, &doc),
        Err(_) => Err(ConfigError::MalformedConfig(source)),
    }
}

} // verus!
