use belay::execute::{start_line, success_line, Action, Executor};
use belay::hook::HookType;
use belay::model::{RepositoryContext, TaskDefinition, TriggerEvent, WorkflowDefinition};
use belay::parse::{parse_workflow, workflow_from_yaml, ConfigError, Format};
use belay::plan::{plan_from_configs, plan_tasks, ConfigText};
use belay::resolve::is_eligible;
use belay::yaml::{lines_short_enough, Yaml};

const PASSING: &str = "name: Rust
on:
  push:
    branches: [ main ]
  pull_request:
    branches: [ main ]
jobs:
  build:
    runs-on: ubuntu-latest
    steps:
    - uses: actions/checkout@v2
    - name: Say hello
      run: echo hello
    - name: Say goodbye
      run: echo goodbye
";

const FAILING: &str = "on: [push, pull_request]
jobs:
  test:
    steps:
    - name: Say hello
      run: echo hello
    - name: tough test
      run: exit 1
";

const PUSH_TO_MAIN: &str = "on:
  push:
    branches:
    - main
jobs:
  check:
    steps:
    - name: A Step
      run: echo stepping
";

const PUSH_TO_MAIN_OR_ANY_PROPOSAL: &str = "on:
  push:
    branches:
    - main
  pull_request:
jobs:
  check:
    steps:
    - name: A Step
      run: echo stepping
";

fn ctx(branch: &str, remote: bool) -> RepositoryContext {
    RepositoryContext { current_branch: branch.to_string(), has_configured_remote: remote }
}

fn github(source: &str, text: &str) -> ConfigText {
    ConfigText { format: Format::GitHub, source_identifier: source.to_string(), text: text.to_string() }
}

fn commands(tasks: &[TaskDefinition]) -> Vec<String> {
    tasks.iter().map(|t| t.command.clone()).collect()
}

fn names(tasks: &[TaskDefinition]) -> Vec<Option<String>> {
    tasks.iter().map(|t| t.name.clone()).collect()
}

fn parse_github(text: &str) -> WorkflowDefinition {
    parse_workflow(Format::GitHub, "rust.yml".to_string(), text).unwrap()
}

/// Drives the executor as a caller would, taking task outcomes from `statuses`.
fn run(tasks: &Vec<TaskDefinition>, statuses: &[bool]) -> (Vec<usize>, Action) {
    let mut executor = Executor::new(tasks);
    let mut started = Vec::new();
    loop {
        match executor.next_action() {
            Action::Run(i) => {
                started.push(i);
                executor.record(statuses[i]);
            }
            done => return (started, done),
        }
    }
}

#[test]
fn hook_filenames() {
    assert_eq!(HookType::Commit.filename(), "pre-commit");
    assert_eq!(HookType::Push.filename(), "pre-push");
}

#[test]
fn github_steps_become_tasks_in_order() {
    let w = parse_github(PASSING);
    assert_eq!(w.source_identifier, "rust.yml");
    assert_eq!(commands(&w.tasks), vec!["echo hello", "echo goodbye"]);
    assert_eq!(
        names(&w.tasks),
        vec![Some("Say hello".to_string()), Some("Say goodbye".to_string())]
    );
    assert_eq!(w.triggers.len(), 2);
    assert!(matches!(w.triggers[0].event, TriggerEvent::DirectUpdate));
    assert_eq!(w.triggers[0].branch_filter, Some(vec!["main".to_string()]));
    assert!(matches!(w.triggers[1].event, TriggerEvent::ProposedChange));
}

#[test]
fn github_bare_step_and_event_list() {
    let text = "on: [push, workflow_dispatch]
jobs:
  a:
    steps:
    - cargo build
  b:
    steps:
    - run: cargo test
";
    let w = parse_github(text);
    assert_eq!(commands(&w.tasks), vec!["cargo build", "cargo test"]);
    assert_eq!(names(&w.tasks), vec![None, None]);
    assert!(matches!(w.triggers[0].event, TriggerEvent::DirectUpdate));
    assert!(w.triggers[0].branch_filter.is_none());
    match &w.triggers[1].event {
        TriggerEvent::Other(name) => assert_eq!(name, "workflow_dispatch"),
        _ => panic!("expected an event by name"),
    }
}

#[test]
fn github_single_event_and_no_triggers() {
    let w = parse_github("on: pull_request\njobs:\n  a:\n    steps:\n    - make\n");
    assert_eq!(w.triggers.len(), 1);
    assert!(matches!(w.triggers[0].event, TriggerEvent::ProposedChange));
    let w = parse_github("jobs:\n  a:\n    steps:\n    - make\n");
    assert!(w.triggers.is_empty());
    assert!(!is_eligible(&w, &ctx("main", false)));
    assert!(!is_eligible(&w, &ctx("main", true)));
}

#[test]
fn gitlab_jobs_become_named_tasks() {
    let text = "build: cargo build
test:
  script:
  - echo hello
lint:
  script: cargo clippy
";
    let w = parse_workflow(Format::GitLab, ".gitlab-ci.yml".to_string(), text).unwrap();
    assert_eq!(commands(&w.tasks), vec!["cargo build", "echo hello", "cargo clippy"]);
    assert_eq!(
        names(&w.tasks),
        vec![Some("build".to_string()), Some("test".to_string()), Some("lint".to_string())]
    );
    assert_eq!(w.triggers.len(), 1);
    assert!(matches!(w.triggers[0].event, TriggerEvent::Always));
    assert!(is_eligible(&w, &ctx("anything", false)));
    assert!(is_eligible(&w, &ctx("anything", true)));
}

#[test]
fn malformed_configurations_name_their_source() {
    let cases = [
        (Format::GitHub, "- a\n- b\n"),
        (Format::GitHub, "on: push\n"),
        (Format::GitHub, "on: push\njobs:\n  a:\n    runs-on: x\n"),
        (Format::GitHub, "on: push\njobs:\n  a:\n    steps: 3\n"),
        (Format::GitHub, "on: push\njobs:\n  a:\n    steps:\n    - run: [1, 2]\n"),
        (Format::GitHub, "on:\n  push:\n    branches: main\njobs:\n  a:\n    steps:\n    - x\n"),
        (Format::GitHub, "jobs: [\n"),
        (Format::GitLab, "just text"),
        (Format::GitLab, "job:\n  stage: test\n"),
        (Format::GitLab, "job:\n  script:\n  - one\n  - two\n"),
        (Format::GitLab, "1: echo one\n"),
        (Format::GitLab, ""),
    ];
    for (format, text) in cases.iter() {
        match parse_workflow(*format, "bad.yml".to_string(), text) {
            Err(ConfigError::MalformedConfig(source)) => assert_eq!(source, "bad.yml"),
            other => panic!("expected a malformed configuration for {:?}: {:?}", text, other),
        }
    }
}

fn text(s: &str) -> Yaml {
    Yaml::Text(s.to_string())
}

#[test]
fn workflow_from_parsed_document() {
    let doc = Yaml::Dict(vec![(text("lint"), text("cargo fmt --check"))]);
    let w = workflow_from_yaml(Format::GitLab, "ci".to_string(), &doc).unwrap();
    assert_eq!(commands(&w.tasks), vec!["cargo fmt --check"]);
    assert!(matches!(
        workflow_from_yaml(Format::GitHub, "ci".to_string(), &doc),
        Err(ConfigError::MalformedConfig(_))
    ));
    let step = Yaml::Dict(vec![(text("name"), text("Build")), (text("run"), text("make"))]);
    let job = Yaml::Dict(vec![(text("steps"), Yaml::List(vec![step, text("make test")]))]);
    let on = Yaml::Dict(vec![(text("push"), Yaml::Null)]);
    let doc = Yaml::Dict(vec![(text("on"), on), (text("jobs"), Yaml::Dict(vec![(text("j"), job)]))]);
    let w = workflow_from_yaml(Format::GitHub, "w.yml".to_string(), &doc).unwrap();
    assert_eq!(commands(&w.tasks), vec!["make", "make test"]);
    assert_eq!(names(&w.tasks), vec![Some("Build".to_string()), None]);
    assert!(w.triggers[0].branch_filter.is_none());
    let bad_step = Yaml::Dict(vec![(text("steps"), Yaml::List(vec![Yaml::Scalar]))]);
    let doc = Yaml::Dict(vec![(text("jobs"), Yaml::Dict(vec![(text("j"), bad_step)]))]);
    assert!(matches!(
        workflow_from_yaml(Format::GitHub, "w.yml".to_string(), &doc),
        Err(ConfigError::MalformedConfig(_))
    ));
}

#[test]
fn overlong_lines_are_malformed() {
    let long = format!("on: push\njobs:\n  a:\n    steps:\n    - echo {}\n", "x".repeat(2000));
    assert!(!lines_short_enough(&long));
    match parse_workflow(Format::GitHub, "long.yml".to_string(), &long) {
        Err(ConfigError::MalformedConfig(source)) => assert_eq!(source, "long.yml"),
        other => panic!("unexpected {:?}", other),
    }
    let deep = format!("{}x", "- ".repeat(1_000_000));
    assert!(matches!(
        parse_workflow(Format::GitLab, "deep.yml".to_string(), &deep),
        Err(ConfigError::MalformedConfig(_))
    ));
    let fits = format!("job: echo {}\n", "y".repeat(1000));
    assert!(lines_short_enough(&fits));
    assert!(parse_workflow(Format::GitLab, "ok.yml".to_string(), &fits).is_ok());
    assert!(lines_short_enough(""));
}

#[test]
fn no_configuration_is_not_found() {
    let r = plan_from_configs(&Vec::new(), &ctx("main", false));
    assert!(matches!(r, Err(ConfigError::ConfigNotFound)));
}

#[test]
fn first_malformed_configuration_stops_planning() {
    let configs = vec![github("a.yml", PASSING), github("b.yml", "[1]"), github("c.yml", "{")];
    match plan_from_configs(&configs, &ctx("main", false)) {
        Err(ConfigError::MalformedConfig(source)) => assert_eq!(source, "b.yml"),
        other => panic!("unexpected {:?}", other),
    }
}

#[test]
fn branch_filtering() {
    let w = parse_github(PUSH_TO_MAIN);
    assert!(is_eligible(&w, &ctx("main", false)));
    assert!(!is_eligible(&w, &ctx("develop", false)));
    // a remote makes the proposed-change event the active one, which this
    // workflow does not react to
    assert!(!is_eligible(&w, &ctx("main", true)));
}

#[test]
fn remote_precedence() {
    let w = parse_github(PUSH_TO_MAIN_OR_ANY_PROPOSAL);
    assert!(!is_eligible(&w, &ctx("develop", false)));
    assert!(is_eligible(&w, &ctx("develop", true)));
    assert!(is_eligible(&w, &ctx("main", false)));
}

#[test]
fn restricted_applicability_through_the_pipeline() {
    let configs = vec![github("rust.yml", PUSH_TO_MAIN_OR_ANY_PROPOSAL)];
    let on_main = plan_from_configs(&configs, &ctx("main", false)).unwrap();
    assert_eq!(commands(&on_main), vec!["echo stepping"]);
    let on_develop = plan_from_configs(&configs, &ctx("develop", false)).unwrap();
    assert!(on_develop.is_empty());
    let with_remote = plan_from_configs(&configs, &ctx("develop", true)).unwrap();
    assert_eq!(names(&with_remote), vec![Some("A Step".to_string())]);
}

#[test]
fn dedup_keeps_first_occurrence() {
    let text = "on: push
jobs:
  a:
    steps:
    - name: first
      run: make
    - name: other
      run: make test
  b:
    steps:
    - name: second
      run: make
";
    let tasks = plan_tasks(vec![parse_github(text)], &ctx("main", false));
    assert_eq!(commands(&tasks), vec!["make", "make test"]);
    assert_eq!(names(&tasks), vec![Some("first".to_string()), Some("other".to_string())]);
}

#[test]
fn ordering_by_source_identifier() {
    let a = "on: push\njobs:\n  j:\n    steps:\n    - a1\n    - a2\n";
    let b = "on: push\njobs:\n  j:\n    steps:\n    - b1\n    - b2\n";
    let configs = vec![github("b.yml", b), github("a.yml", a)];
    let tasks = plan_from_configs(&configs, &ctx("main", false)).unwrap();
    assert_eq!(commands(&tasks), vec!["a1", "a2", "b1", "b2"]);
    let configs = vec![github("a.yml", a), github("b.yml", b)];
    let tasks = plan_from_configs(&configs, &ctx("main", false)).unwrap();
    assert_eq!(commands(&tasks), vec!["a1", "a2", "b1", "b2"]);
}

#[test]
fn ordering_is_bytewise() {
    let a = "on: push\njobs:\n  j:\n    steps:\n    - upper\n";
    let b = "on: push\njobs:\n  j:\n    steps:\n    - lower\n";
    let c = "on: push\njobs:\n  j:\n    steps:\n    - longer\n";
    let configs = vec![github("rust", b), github("rust2", c), github("Rust", a)];
    let tasks = plan_from_configs(&configs, &ctx("main", false)).unwrap();
    assert_eq!(commands(&tasks), vec!["upper", "lower", "longer"]);
}

#[test]
fn determinism() {
    let configs = vec![github("rust2.yml", FAILING), github("rust.yml", PASSING)];
    let first = plan_from_configs(&configs, &ctx("main", false)).unwrap();
    let second = plan_from_configs(&configs, &ctx("main", false)).unwrap();
    assert_eq!(commands(&first), commands(&second));
    assert_eq!(names(&first), names(&second));
    let statuses = [true, true, false];
    assert_eq!(run(&first, &statuses), run(&second, &statuses));
}

#[test]
fn fail_fast() {
    let tasks = vec![
        TaskDefinition { name: Some("t1".to_string()), command: "true".to_string() },
        TaskDefinition { name: Some("t2".to_string()), command: "false".to_string() },
        TaskDefinition { name: Some("t3".to_string()), command: "true".to_string() },
    ];
    let (started, outcome) = run(&tasks, &[true, false, true]);
    assert_eq!(started, vec![0, 1]);
    assert_eq!(outcome, Action::Failed(1));
}

#[test]
fn all_tasks_succeed() {
    let tasks = vec![
        TaskDefinition { name: None, command: "true".to_string() },
        TaskDefinition { name: None, command: "true again".to_string() },
    ];
    assert_eq!(run(&tasks, &[true, true]), (vec![0, 1], Action::Succeeded));
    assert_eq!(run(&Vec::new(), &[]), (vec![], Action::Succeeded));
}

#[test]
fn cross_file_dedup_with_interleaved_failure() {
    let configs = vec![github("a.yml", PASSING), github("b.yml", FAILING)];
    let tasks = plan_from_configs(&configs, &ctx("main", false)).unwrap();
    assert_eq!(commands(&tasks), vec!["echo hello", "echo goodbye", "exit 1"]);
    assert_eq!(
        names(&tasks),
        vec![
            Some("Say hello".to_string()),
            Some("Say goodbye".to_string()),
            Some("tough test".to_string())
        ]
    );
    let (started, outcome) = run(&tasks, &[true, true, false]);
    assert_eq!(started, vec![0, 1, 2]);
    assert_eq!(outcome, Action::Failed(2));
    let lines: Vec<String> = started.iter().map(|&i| start_line(&tasks[i])).collect();
    assert_eq!(lines, vec!["Checking 'Say hello':", "Checking 'Say goodbye':", "Checking 'tough test':"]);
}

#[test]
fn progress_lines() {
    let named = TaskDefinition { name: Some("A Step".to_string()), command: "x".to_string() };
    let anonymous = TaskDefinition { name: None, command: "x".to_string() };
    assert_eq!(start_line(&named), "Checking 'A Step':");
    assert_eq!(start_line(&anonymous), "Checking:");
    assert_eq!(success_line(), "Success!");
}

#[test]
fn empty_sections_give_no_tasks() {
    let w = parse_github("on: push\njobs: {}\n");
    assert!(w.tasks.is_empty());
    let w = parse_github("on: push\njobs:\n  a:\n    steps: []\n");
    assert!(w.tasks.is_empty());
    let w = parse_workflow(Format::GitLab, "ci".to_string(), "{}").unwrap();
    assert!(w.tasks.is_empty());
    let tasks = plan_tasks(vec![w], &ctx("main", false));
    assert!(tasks.is_empty());
    assert_eq!(run(&tasks, &[]), (vec![], Action::Succeeded));
}

#[test]
fn event_without_branch_list_matches_every_branch() {
    let text = "on:\n  push:\n    paths: [src]\njobs:\n  a:\n    steps:\n    - make\n";
    let w = parse_github(text);
    assert!(w.triggers[0].branch_filter.is_none());
    assert!(is_eligible(&w, &ctx("feature/x", false)));
    let w = parse_github("on:\n  push: [main, dev]\njobs:\n  a:\n    steps:\n    - make\n");
    assert_eq!(w.triggers[0].branch_filter, Some(vec!["main".to_string(), "dev".to_string()]));
    assert!(is_eligible(&w, &ctx("dev", false)));
    assert!(!is_eligible(&w, &ctx("feature/x", false)));
}
