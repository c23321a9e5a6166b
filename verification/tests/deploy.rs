use registry_deploy::config::{
    DeploymentConfig, ImageConfig, RegistryConfig, RegistryGroup, SourceFile,
};
use registry_deploy::deploy::{
    holds_tag, outcome, plan_jobs, should_publish, Action, Deployment, Event, Job, Note, Phase,
};
use registry_deploy::docker::{Docker, TagListRequest};
use registry_deploy::environment::{Content, Environment, Variable};

fn image(name: &str, replace: bool, ignore: bool) -> ImageConfig {
    if ignore {
        ImageConfig {
            path: String::new(),
            source: String::new(),
            repository: String::new(),
            name: name.to_string(),
            tag: "v1".to_string(),
            replace: false,
            ignore: true,
        }
    } else {
        ImageConfig {
            path: "/work/service".to_string(),
            source: "Containerfile".to_string(),
            repository: "repo".to_string(),
            name: name.to_string(),
            tag: "v1".to_string(),
            replace,
            ignore: false,
        }
    }
}

fn registry(images: Vec<ImageConfig>) -> RegistryConfig {
    RegistryConfig {
        hostname: "prod-host".to_string(),
        username: "deployer".to_string(),
        password: "secret".to_string(),
        images,
    }
}

fn config(groups: Vec<(&str, Vec<RegistryConfig>)>) -> DeploymentConfig {
    DeploymentConfig {
        registries: groups
            .into_iter()
            .map(|(name, entries)| RegistryGroup { name: name.to_string(), entries })
            .collect(),
        rejections: Vec::new(),
        notices: Vec::new(),
    }
}

fn single(images: Vec<ImageConfig>) -> DeploymentConfig {
    config(vec![("prod", vec![registry(images)])])
}

fn done(success: bool, stdout: &str) -> Event {
    Event::Finished { success, stdout: stdout.to_string() }
}

fn run(directory: Option<&str>, command: &str) -> Option<Action> {
    let shown = if directory.is_none() { LOGIN_SHOWN } else { command };
    Some(Action::Run {
        directory: directory.map(|text| text.to_string()),
        command: command.to_string(),
        shown: shown.to_string(),
    })
}

fn query(name: &str) -> Option<Action> {
    Some(Action::QueryTags(TagListRequest {
        endpoint: format!("https://prod-host/v2/repo/{}/tags/list", name),
        authorization: "Bearer c2VjcmV0".to_string(),
    }))
}

const LOGIN: &str = "echo secret | docker login prod-host -u deployer --password-stdin";
const LOGIN_SHOWN: &str = "echo <REDACTED> | docker login prod-host -u deployer --password-stdin";
const BUILD: &str = "docker build -q -t prod-host/repo/app -f Containerfile .";

fn started(config: &DeploymentConfig, dry_run: bool) -> Deployment {
    let run = Deployment::new(config, dry_run);
    let (run, action) = run.step(Event::Start);
    assert_eq!(action, self::run(None, LOGIN));
    let (run, _) = run.step(done(true, "Login Succeeded\n"));
    run
}

#[test]
fn plan_logs_in_once_and_passes_over_ignored_images() {
    let config = config(vec![
        (
            "prod",
            vec![
                registry(vec![image("a", true, false), image("b", false, true)]),
                registry(vec![image("c", false, false)]),
            ],
        ),
        ("empty", vec![]),
        ("test", vec![registry(vec![image("d", false, true)])]),
    ]);
    let jobs = plan_jobs(&config);
    assert_eq!(jobs.len(), 6);
    assert!(matches!(&jobs[0], Job::Login { name, hostname, .. }
        if name == "prod" && hostname == "prod-host"));
    assert!(matches!(&jobs[1], Job::Publish { replace: true, .. }));
    assert_eq!(jobs[2], Job::Ignored { name: "b".to_string(), tag: "v1".to_string() });
    assert!(matches!(&jobs[3], Job::Publish { replace: false, .. }));
    assert!(matches!(&jobs[4], Job::Login { name, .. } if name == "test"));
    assert_eq!(jobs[5], Job::Ignored { name: "d".to_string(), tag: "v1".to_string() });
}

#[test]
fn plan_builds_the_image_from_registry_and_entry() {
    let jobs = plan_jobs(&single(vec![image("app", true, false)]));
    let expected = Docker::new(
        "/work/service".to_string(),
        "Containerfile".to_string(),
        "prod-host".to_string(),
        "secret".to_string(),
        "repo".to_string(),
        "app".to_string(),
        "v1".to_string(),
    );
    assert_eq!(jobs[1], Job::Publish { docker: expected, replace: true });
}

#[test]
fn plan_of_nothing_is_empty() {
    assert_eq!(plan_jobs(&config(vec![])), Vec::<Job>::new());
}

#[test]
fn holds_tag_finds_the_tag() {
    let tags = vec!["latest".to_string(), "v1".to_string()];
    assert!(holds_tag(&tags, "v1"));
    assert!(!holds_tag(&tags, "v2"));
    assert!(!holds_tag(&tags, "v"));
    assert!(!holds_tag(&Vec::new(), "v1"));
}

#[test]
fn should_publish_unless_the_tag_is_held() {
    let held = vec!["v1".to_string()];
    let other = vec!["v0".to_string()];
    assert!(!should_publish(&image("app", false, false), &held));
    assert!(should_publish(&image("app", false, false), &other));
    assert!(should_publish(&image("app", false, false), &Vec::new()));
    assert!(should_publish(&image("app", true, false), &held));
}

#[test]
fn should_publish_looks_at_the_tags_not_their_order() {
    let first = vec!["a".to_string(), "v1".to_string(), "a".to_string()];
    let second = vec!["v1".to_string(), "a".to_string()];
    let subject = image("app", false, false);
    assert_eq!(should_publish(&subject, &first), should_publish(&subject, &second));
}

#[test]
fn run_over_nothing_is_over_at_once() {
    let run = Deployment::new(&config(vec![]), false);
    assert_eq!(run.phase(), Phase::Ready);
    let (run, action) = run.step(Event::Start);
    assert_eq!(action, Some(Action::Finish { errors: 0 }));
    assert_eq!(run.phase(), Phase::Done);
}

#[test]
fn replacing_image_is_built_tagged_pushed_and_removed() {
    let config = single(vec![image("app", true, false)]);
    let run = Deployment::new(&config, false);
    let (run, action) = run.step(Event::Start);
    assert_eq!(action, self::run(None, LOGIN));
    let (run, action) = run.step(done(true, "Login Succeeded\n"));
    assert_eq!(action, self::run(Some("/work/service"), BUILD));
    assert_eq!(run.phase(), Phase::Build);
    let (run, action) = run.step(done(true, "sha256:abc\n"));
    assert_eq!(
        action,
        self::run(Some("/work/service"), "docker tag sha256:abc prod-host/repo/app:v1")
    );
    let (run, action) = run.step(done(true, ""));
    assert_eq!(action, self::run(Some("/work/service"), "docker push prod-host/repo/app:v1"));
    let (run, action) = run.step(done(true, ""));
    assert_eq!(action, self::run(Some("/work/service"), "docker rmi sha256:abc -f"));
    let (run, action) = run.step(done(true, ""));
    assert_eq!(action, Some(Action::Finish { errors: 0 }));
    assert_eq!(run.error_count(), 0);
    assert_eq!(run.phase(), Phase::Done);
}

#[test]
fn dry_run_builds_and_removes_only() {
    let config = single(vec![image("app", true, false)]);
    let run = started(&config, true);
    let (run, action) = run.step(done(true, "sha256:abc\n"));
    assert_eq!(action, self::run(Some("/work/service"), "docker rmi sha256:abc -f"));
    let (run, action) = run.step(done(true, ""));
    assert_eq!(action, Some(Action::Finish { errors: 0 }));
    assert_eq!(run.error_count(), 0);
}

#[test]
fn failed_build_counts_an_error_and_runs_nothing_more() {
    let config = single(vec![image("app", true, false), image("next", true, false)]);
    let run = started(&config, false);
    let (run, action) = run.step(done(false, "sha256:abc\n"));
    assert_eq!(
        action,
        self::run(Some("/work/service"), "docker build -q -t prod-host/repo/next -f Containerfile .")
    );
    assert_eq!(run.error_count(), 1);
    let (run, action) = run.step(done(false, ""));
    assert_eq!(action, Some(Action::Finish { errors: 2 }));
    assert_eq!(run.error_count(), 2);
}

#[test]
fn failed_tag_and_push_do_not_count() {
    let config = single(vec![image("app", true, false)]);
    let run = started(&config, false);
    let (run, _) = run.step(done(true, "abc"));
    let (run, action) = run.step(done(false, ""));
    assert_eq!(action, self::run(Some("/work/service"), "docker push prod-host/repo/app:v1"));
    let (run, action) = run.step(done(false, ""));
    assert_eq!(action, self::run(Some("/work/service"), "docker rmi abc -f"));
    let (_, action) = run.step(done(false, ""));
    assert_eq!(action, Some(Action::Finish { errors: 0 }));
}

#[test]
fn ignored_image_gets_no_command() {
    let config = single(vec![image("old", false, true)]);
    let run = Deployment::new(&config, false);
    let (run, action) = run.step(Event::Start);
    assert_eq!(action, self::run(None, LOGIN));
    let (run, action) = run.step(done(true, ""));
    assert_eq!(action, Some(Action::Finish { errors: 0 }));
    assert_eq!(
        run.notes(),
        &vec![Note::Image { name: "old".to_string(), tag: "v1".to_string() }, Note::Ignored]
    );
}

#[test]
fn ignored_image_between_others_is_passed_over() {
    let config =
        single(vec![image("old", false, true), image("app", true, false), image("older", false, true)]);
    let run = Deployment::new(&config, false);
    let (run, _) = run.step(Event::Start);
    let (run, action) = run.step(done(true, ""));
    assert_eq!(action, self::run(Some("/work/service"), BUILD));
    assert_eq!(
        run.notes(),
        &vec![
            Note::Image { name: "old".to_string(), tag: "v1".to_string() },
            Note::Ignored,
            Note::Image { name: "app".to_string(), tag: "v1".to_string() },
        ]
    );
    let (run, _) = run.step(done(true, "abc"));
    assert_eq!(run.notes(), &Vec::<Note>::new());
    let (run, _) = run.step(done(true, ""));
    let (run, _) = run.step(done(true, ""));
    let (run, action) = run.step(done(true, ""));
    assert_eq!(action, Some(Action::Finish { errors: 0 }));
    assert_eq!(
        run.notes(),
        &vec![Note::Image { name: "older".to_string(), tag: "v1".to_string() }, Note::Ignored]
    );
}

#[test]
fn start_of_a_registry_is_noted() {
    let config = single(vec![image("app", true, false)]);
    let run = Deployment::new(&config, false);
    assert_eq!(run.notes(), &Vec::<Note>::new());
    let (run, _) = run.step(Event::Start);
    assert_eq!(
        run.notes(),
        &vec![Note::Registry {
            name: "prod".to_string(),
            hostname: "prod-host".to_string(),
            username: "deployer".to_string(),
        }]
    );
}

#[test]
fn held_tag_and_dry_run_are_noted() {
    let config = single(vec![image("app", false, false), image("next", true, false)]);
    let run = started(&config, true);
    let (run, _) = run.step(Event::Status(200));
    let (run, _) = run.step(Event::Tags(vec!["v1".to_string()]));
    assert_eq!(
        run.notes(),
        &vec![Note::Held, Note::Image { name: "next".to_string(), tag: "v1".to_string() }]
    );
    let (run, action) = run.step(done(false, ""));
    assert_eq!(action, Some(Action::Finish { errors: 1 }));
    assert_eq!(run.notes(), &vec![Note::DryRun]);
}

#[test]
fn event_out_of_turn_keeps_the_notes() {
    let config = single(vec![image("app", true, false)]);
    let run = Deployment::new(&config, false);
    let (run, _) = run.step(Event::Start);
    let (run, action) = run.step(Event::Status(200));
    assert_eq!(action, None);
    assert_eq!(run.notes().len(), 1);
}

#[test]
fn outcome_of_a_success_tells_what_login_and_build_printed() {
    assert_eq!(outcome(Phase::Login, true, "Login Succeeded\n", ""), "    -> done (Login Succeeded)");
    assert_eq!(outcome(Phase::Build, true, " sha256:abc\n", "x"), "    -> done (sha256:abc)");
    assert_eq!(outcome(Phase::Tag, true, "out", ""), "    -> done");
    assert_eq!(outcome(Phase::Push, true, "out", ""), "    -> done");
    assert_eq!(outcome(Phase::Cleanup, true, "", ""), "    -> done");
}

#[test]
fn outcome_of_a_failure_lays_out_the_diagnostics() {
    assert_eq!(
        outcome(Phase::Build, false, "ignored", "no such file\n  step 2\n"),
        "    -> error:\n        no such file\n        step 2"
    );
    assert_eq!(
        outcome(Phase::Login, false, "", "denied"),
        "    -> failed. will skip all images that use this credential. error:\n        denied"
    );
    assert_eq!(outcome(Phase::Push, false, "", ""), "    -> error:\n");
}

#[test]
fn held_tag_is_not_built() {
    let config = single(vec![image("app", false, false), image("next", true, false)]);
    let run = Deployment::new(&config, false);
    let (run, _) = run.step(Event::Start);
    let (run, action) = run.step(done(true, ""));
    assert_eq!(action, query("app"));
    assert_eq!(run.phase(), Phase::Status);
    let (run, action) = run.step(Event::Status(200));
    assert_eq!(action, Some(Action::ReadTags));
    let (run, action) = run.step(Event::Tags(vec!["latest".to_string(), "v1".to_string()]));
    assert_eq!(
        action,
        self::run(Some("/work/service"), "docker build -q -t prod-host/repo/next -f Containerfile .")
    );
    assert_eq!(run.error_count(), 0);
}

#[test]
fn missing_tag_is_built() {
    let config = single(vec![image("app", false, false)]);
    let run = started(&config, false);
    let (run, _) = run.step(Event::Status(200));
    let (_, action) = run.step(Event::Tags(vec!["latest".to_string()]));
    assert_eq!(action, self::run(Some("/work/service"), BUILD));
}

#[test]
fn refused_tag_list_counts_as_no_tags() {
    let config = single(vec![image("app", false, false)]);
    let run = started(&config, false);
    let (run, action) = run.step(Event::Status(404));
    assert_eq!(action, self::run(Some("/work/service"), BUILD));
    assert_eq!(run.phase(), Phase::Build);
}

#[test]
fn failed_login_skips_the_images_of_that_name() {
    let config = config(vec![
        ("prod", vec![registry(vec![image("app", true, false)]), registry(vec![image("b", true, false)])]),
        ("test", vec![registry(vec![image("app", true, false)])]),
    ]);
    let run = Deployment::new(&config, false);
    let (run, _) = run.step(Event::Start);
    let (run, action) = run.step(done(false, ""));
    assert_eq!(action, self::run(None, LOGIN));
    let (run, action) = run.step(done(false, ""));
    assert_eq!(action, Some(Action::Finish { errors: 0 }));
    assert_eq!(run.error_count(), 0);
}

#[test]
fn event_out_of_turn_changes_nothing() {
    let config = single(vec![image("app", true, false)]);
    let run = Deployment::new(&config, false);
    let (run, action) = run.step(done(true, ""));
    assert_eq!(action, None);
    assert_eq!(run.phase(), Phase::Ready);
    let (run, _) = run.step(Event::Start);
    let (run, action) = run.step(Event::Status(200));
    assert_eq!(action, None);
    let (run, action) = run.step(Event::Tags(Vec::new()));
    assert_eq!(action, None);
    let (run, action) = run.step(Event::Start);
    assert_eq!(action, None);
    assert_eq!(run.phase(), Phase::Login);
}

#[test]
fn finished_run_takes_no_event() {
    let run = Deployment::new(&config(vec![]), false);
    let (run, _) = run.step(Event::Start);
    let (run, action) = run.step(Event::Start);
    assert_eq!(action, None);
    let (_, action) = run.step(done(true, ""));
    assert_eq!(action, None);
}

#[test]
fn same_events_give_the_same_run() {
    let config = single(vec![image("app", false, false), image("b", true, false)]);
    let events = vec![
        Event::Start,
        done(true, ""),
        Event::Status(200),
        Event::Tags(vec!["v1".to_string()]),
        done(true, "abc"),
    ];
    let mut first = Deployment::new(&config, false);
    let mut second = Deployment::new(&config, false);
    for event in events {
        let (next_first, action_first) = first.step(event.clone());
        let (next_second, action_second) = second.step(event);
        assert_eq!(action_first, action_second);
        first = next_first;
        second = next_second;
    }
    assert_eq!(first.phase(), second.phase());
    assert_eq!(first.docker(), second.docker());
}

#[test]
fn run_from_configuration_text_to_the_last_command() {
    let content = r#"
[registries.prod]
hostname = "PROD_HOST"
username = "PROD_USER"
password = "PROD_PASS"

[registries.prod.images.app]
name = "app"
tag = "v1"
source = "Containerfile"
repository = "repo"
replace = true
"#;
    let environment = Environment::new(vec![
        Variable { name: "PROD_HOST".to_string(), value: Content::Text("prod-host".to_string()) },
        Variable { name: "PROD_USER".to_string(), value: Content::Text("deployer".to_string()) },
        Variable { name: "PROD_PASS".to_string(), value: Content::Text("secret".to_string()) },
    ]);
    let files = vec![SourceFile {
        path: "/work/service/deploy.toml".to_string(),
        content: content.to_string(),
    }];
    let config = DeploymentConfig::lookup("deploy.toml", &files, &environment).unwrap();
    let run = started(&config, false);
    assert_eq!(run.docker().path(), "/work/service");
    let (run, _) = run.step(done(true, "digest"));
    let (run, _) = run.step(done(true, ""));
    let (run, action) = run.step(done(true, ""));
    assert_eq!(action, self::run(Some("/work/service"), "docker rmi digest -f"));
    let (_, action) = run.step(done(true, ""));
    assert_eq!(action, Some(Action::Finish { errors: 0 }));
}
