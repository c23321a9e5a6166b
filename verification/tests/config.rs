use registry_deploy::config::{
    collect_images, is_dry_run, read_registry_config, resolve_environment_variable,
    resolve_image_field, AppConfig, AppConfigError, DeploymentConfig, ImageConfig, Notice,
    RegistryConfig, Rejection, SourceFile,
};
use registry_deploy::document::{ConfigError, Document, ImageEntry, RegistryEntry};
use registry_deploy::environment::{Content, Environment, Lookup, Variable};

fn variable(name: &str, value: &str) -> Variable {
    Variable { name: name.to_string(), value: Content::Text(value.to_string()) }
}

fn environment() -> Environment {
    Environment::new(vec![
        variable("PROD_HOST", "prod-host"),
        variable("PROD_USER", "deployer"),
        variable("PROD_PASS", "secret"),
        Variable { name: "BROKEN".to_string(), value: Content::NotUnicode("\"fo\\xFF\"".to_string()) },
    ])
}

fn some(text: &str) -> Option<String> {
    Some(text.to_string())
}

fn image_entry(section: &str) -> ImageEntry {
    ImageEntry {
        section: section.to_string(),
        name: some("app"),
        tag: some("v1"),
        ignore: None,
        source: some("Containerfile"),
        repository: some("repo"),
        replace: Some(true),
    }
}

fn registry_entry(name: &str, images: Vec<ImageEntry>) -> RegistryEntry {
    RegistryEntry {
        name: name.to_string(),
        hostname: some("PROD_HOST"),
        username: some("PROD_USER"),
        password: some("PROD_PASS"),
        images,
    }
}

fn resolved_image() -> ImageConfig {
    ImageConfig {
        path: "/work/service".to_string(),
        source: "Containerfile".to_string(),
        repository: "repo".to_string(),
        name: "app".to_string(),
        tag: "v1".to_string(),
        replace: true,
        ignore: false,
    }
}

const SAMPLE: &str = r#"
[registries.prod]
hostname = "PROD_HOST"
username = "PROD_USER"
password = "PROD_PASS"

[registries.prod.images.app]
name = "app"
tag = "v1"
source = "Containerfile"
repository = "repo"
replace = true
"#;

#[test]
fn environment_resolves_the_first_variable_of_a_name() {
    let env = Environment::new(vec![variable("A", "1"), variable("B", "2"), variable("A", "3")]);
    assert_eq!(env.var("A"), Lookup::Found("1".to_string()));
    assert_eq!(env.var("B"), Lookup::Found("2".to_string()));
    assert_eq!(env.var("C"), Lookup::NotPresent);
    assert_eq!(env.var(""), Lookup::NotPresent);
    assert_eq!(environment().var("BROKEN"), Lookup::NotUnicode("\"fo\\xFF\"".to_string()));
}

#[test]
fn credential_resolves_through_the_environment() {
    let mut errors = Vec::new();
    let value =
        resolve_environment_variable(&some("  PROD_HOST "), "hostname", &environment(), &mut errors);
    assert_eq!(value, "prod-host");
    assert_eq!(errors, Vec::<String>::new());
}

#[test]
fn missing_credential_field_is_an_error() {
    let mut errors = vec!["earlier".to_string()];
    let value = resolve_environment_variable(&None, "hostname", &environment(), &mut errors);
    assert_eq!(value, "");
    assert_eq!(errors, vec!["earlier".to_string(), "hostname field doesn't exist.".to_string()]);
}

#[test]
fn empty_credential_field_is_an_error() {
    let mut errors = Vec::new();
    let value = resolve_environment_variable(&some("   "), "username", &environment(), &mut errors);
    assert_eq!(value, "");
    assert_eq!(errors, vec!["username field is empty.".to_string()]);
}

#[test]
fn unset_variable_is_an_error() {
    let mut errors = Vec::new();
    let value = resolve_environment_variable(&some("NOWHERE"), "password", &environment(), &mut errors);
    assert_eq!(value, "");
    assert_eq!(
        errors,
        vec![
            "encountered a problem when trying to resolve NOWHERE. (environment variable not found)"
                .to_string()
        ]
    );
}

#[test]
fn variable_without_unicode_is_an_error() {
    let mut errors = Vec::new();
    let value = resolve_environment_variable(&some("BROKEN"), "password", &environment(), &mut errors);
    assert_eq!(value, "");
    assert_eq!(
        errors,
        vec![
            "encountered a problem when trying to resolve BROKEN. (environment variable was not valid unicode: \"fo\\xFF\")"
                .to_string()
        ]
    );
}

#[test]
fn image_field_takes_its_value_or_its_default() {
    let mut errors = Vec::new();
    assert_eq!(resolve_image_field("web", &some("v2"), "tag", false, "latest", &mut errors), "v2");
    assert_eq!(resolve_image_field("web", &None, "tag", false, "latest", &mut errors), "latest");
    assert_eq!(errors, Vec::<String>::new());
}

#[test]
fn missing_required_image_field_is_an_error() {
    let mut errors = Vec::new();
    assert_eq!(resolve_image_field("web", &None, "source", true, "", &mut errors), "");
    assert_eq!(errors, vec!["in \"web\" section: missing required field \"source\".".to_string()]);
}

#[test]
fn registry_credentials_are_resolved_in_order() {
    let mut errors = Vec::new();
    let entry = RegistryEntry {
        name: "prod".to_string(),
        hostname: None,
        username: some("PROD_USER"),
        password: some("NOWHERE"),
        images: Vec::new(),
    };
    let registry = read_registry_config(&entry, &environment(), &mut errors);
    assert_eq!(registry.hostname, "");
    assert_eq!(registry.username, "deployer");
    assert_eq!(registry.password, "");
    assert_eq!(registry.images, Vec::<ImageConfig>::new());
    assert_eq!(errors.len(), 2);
    assert_eq!(errors[0], "hostname field doesn't exist.");
}

#[test]
fn image_is_resolved_with_the_directory_as_path() {
    let mut errors = Vec::new();
    let images = collect_images(&some("/work/service"), &vec![image_entry("app")], &mut errors);
    assert_eq!(images, Ok(vec![resolved_image()]));
    assert_eq!(errors, Vec::<String>::new());
}

#[test]
fn image_defaults_are_latest_and_false() {
    let mut errors = Vec::new();
    let entry = ImageEntry { tag: None, replace: None, ..image_entry("app") };
    let images = collect_images(&some("/d"), &vec![entry], &mut errors).unwrap();
    assert_eq!(images[0].tag, "latest");
    assert!(!images[0].replace);
    assert!(!images[0].ignore);
    assert_eq!(errors, Vec::<String>::new());
}

#[test]
fn ignored_image_is_cleared() {
    let mut errors = Vec::new();
    let entry = ImageEntry { ignore: Some(true), ..image_entry("app") };
    let images = collect_images(&some("/work/service"), &vec![entry], &mut errors);
    assert_eq!(
        images,
        Ok(vec![ImageConfig {
            path: String::new(),
            source: String::new(),
            repository: String::new(),
            name: "app".to_string(),
            tag: "v1".to_string(),
            replace: false,
            ignore: true,
        }])
    );
    assert_eq!(errors, Vec::<String>::new());
}

#[test]
fn ignored_image_needs_no_source() {
    let mut errors = Vec::new();
    let entry = ImageEntry {
        ignore: Some(true),
        source: None,
        repository: None,
        ..image_entry("app")
    };
    assert!(collect_images(&None, &vec![entry], &mut errors).is_ok());
    assert_eq!(errors, Vec::<String>::new());
}

#[test]
fn image_without_name_is_kept_with_an_error() {
    let mut errors = Vec::new();
    let entry = ImageEntry { name: None, ..image_entry("web") };
    let images = collect_images(&some("/d"), &vec![entry], &mut errors).unwrap();
    assert_eq!(images.len(), 1);
    assert_eq!(images[0].name, "");
    assert_eq!(errors, vec!["in \"web\" section: missing required field \"name\".".to_string()]);
}

#[test]
fn image_without_source_is_kept_beside_the_others() {
    let mut errors = Vec::new();
    let broken = ImageEntry { source: None, ..image_entry("web") };
    let images =
        collect_images(&some("/work/service"), &vec![image_entry("app"), broken], &mut errors)
            .unwrap();
    assert_eq!(images.len(), 2);
    assert_eq!(images[0], resolved_image());
    assert_eq!(images[1].source, "");
    assert_eq!(images[1].name, "app");
    assert_eq!(errors, vec!["in \"web\" section: missing required field \"source\".".to_string()]);
}

#[test]
fn image_to_build_needs_a_directory() {
    let mut errors = Vec::new();
    assert_eq!(
        collect_images(&None, &vec![image_entry("app")], &mut errors),
        Err(ConfigError::NoDirectory)
    );
}

#[test]
fn registry_that_resolves_joins_its_name() {
    let config = DeploymentConfig::new();
    let entry = registry_entry("prod", vec![image_entry("app")]);
    let config = config
        .add_registry("/work/service/deploy.toml", &some("/work/service"), &entry, &environment())
        .unwrap();
    assert_eq!(config.rejections, Vec::<Rejection>::new());
    assert_eq!(config.notices, Vec::<Notice>::new());
    assert_eq!(config.registries.len(), 1);
    assert_eq!(config.registries[0].name, "prod");
    assert_eq!(
        config.registries[0].entries,
        vec![RegistryConfig {
            hostname: "prod-host".to_string(),
            username: "deployer".to_string(),
            password: "secret".to_string(),
            images: vec![resolved_image()],
        }]
    );
}

#[test]
fn registries_of_one_name_are_kept_in_order() {
    let config = DeploymentConfig::new();
    let first = registry_entry("prod", vec![image_entry("app")]);
    let other = registry_entry("test", Vec::new());
    let second = registry_entry("prod", Vec::new());
    let env = environment();
    let config = config.add_registry("/a/deploy.toml", &some("/a"), &first, &env).unwrap();
    let config = config.add_registry("/a/deploy.toml", &some("/a"), &other, &env).unwrap();
    let config = config.add_registry("/b/deploy.toml", &some("/b"), &second, &env).unwrap();
    assert_eq!(config.registries.len(), 2);
    assert_eq!(config.registries[0].name, "prod");
    assert_eq!(config.registries[0].entries.len(), 2);
    assert_eq!(config.registries[0].entries[0].images.len(), 1);
    assert_eq!(config.registries[0].entries[1].images.len(), 0);
    assert_eq!(config.registries[1].name, "test");
    assert_eq!(config.registries[1].entries.len(), 1);
}

#[test]
fn registry_with_an_error_is_rejected() {
    let config = DeploymentConfig::new();
    let entry = RegistryEntry { username: None, ..registry_entry("prod", vec![image_entry("app")]) };
    let config = config
        .add_registry("/work/deploy.toml", &some("/work"), &entry, &environment())
        .unwrap();
    assert_eq!(config.registries.len(), 0);
    assert_eq!(
        config.rejections,
        vec![Rejection {
            file: "/work/deploy.toml".to_string(),
            registry: "prod".to_string(),
            messages: vec!["username field doesn't exist.".to_string()],
        }]
    );
}

#[test]
fn registry_with_an_incomplete_image_is_kept() {
    let config = DeploymentConfig::new();
    let broken = ImageEntry { source: None, ..image_entry("web") };
    let entry = registry_entry("prod", vec![image_entry("app"), broken]);
    let config = config
        .add_registry("/work/service/deploy.toml", &some("/work/service"), &entry, &environment())
        .unwrap();
    assert_eq!(config.rejections, Vec::<Rejection>::new());
    assert_eq!(config.registries.len(), 1);
    assert_eq!(config.registries[0].name, "prod");
    assert_eq!(
        config.registries[0].entries,
        vec![RegistryConfig {
            hostname: "prod-host".to_string(),
            username: "deployer".to_string(),
            password: "secret".to_string(),
            images: vec![resolved_image(), ImageConfig { source: String::new(), ..resolved_image() }],
        }]
    );
    assert_eq!(
        config.notices,
        vec![Notice {
            file: "/work/service/deploy.toml".to_string(),
            registry: "prod".to_string(),
            messages: vec!["in \"web\" section: missing required field \"source\".".to_string()],
        }]
    );
}

#[test]
fn rejected_registry_keeps_all_its_messages() {
    let config = DeploymentConfig::new();
    let broken = ImageEntry { name: None, ..image_entry("web") };
    let entry = RegistryEntry { hostname: None, ..registry_entry("prod", vec![broken]) };
    let config = config
        .add_registry("/work/deploy.toml", &some("/work"), &entry, &environment())
        .unwrap();
    assert_eq!(config.registries.len(), 0);
    assert_eq!(config.notices, Vec::<Notice>::new());
    assert_eq!(
        config.rejections,
        vec![Rejection {
            file: "/work/deploy.toml".to_string(),
            registry: "prod".to_string(),
            messages: vec![
                "hostname field doesn't exist.".to_string(),
                "in \"web\" section: missing required field \"name\".".to_string(),
            ],
        }]
    );
}

#[test]
fn file_with_an_incomplete_image_keeps_its_registry() {
    let content = r#"
[registries.prod]
hostname = "PROD_HOST"
username = "PROD_USER"
password = "PROD_PASS"

[registries.prod.images.a]
name = "app"
tag = "v1"
source = "Containerfile"
repository = "repo"
replace = true

[registries.prod.images.b]
name = "b"
repository = "repo"
"#;
    let files =
        vec![SourceFile { path: "/work/service/deploy.toml".to_string(), content: content.to_string() }];
    let config = DeploymentConfig::lookup("deploy.toml", &files, &environment()).unwrap();
    assert_eq!(config.rejections, Vec::<Rejection>::new());
    assert_eq!(config.registries.len(), 1);
    let images = &config.registries[0].entries[0].images;
    assert_eq!(images.len(), 2);
    assert_eq!(images[0], resolved_image());
    assert_eq!(images[1].name, "b");
    assert_eq!(images[1].source, "");
    assert_eq!(images[1].tag, "latest");
    assert_eq!(config.notices.len(), 1);
    assert_eq!(
        config.notices[0].messages,
        vec!["in \"b\" section: missing required field \"source\".".to_string()]
    );
}

#[test]
fn document_in_a_directory_gives_its_images_that_path() {
    let document = Document {
        path: "/work/service/deploy.toml".to_string(),
        registries: vec![registry_entry("prod", vec![image_entry("app")])],
    };
    let config = DeploymentConfig::collect_registries(&vec![document], &environment()).unwrap();
    assert_eq!(config.registries[0].entries[0].images[0].path, "/work/service");
}

#[test]
fn document_without_a_directory_cannot_build() {
    let document = Document {
        path: "".to_string(),
        registries: vec![registry_entry("prod", vec![image_entry("app")])],
    };
    assert_eq!(
        DeploymentConfig::collect_registries(&vec![document], &environment()),
        Err(ConfigError::NoDirectory)
    );
}

#[test]
fn other_registries_of_a_file_resolve_on_their_own() {
    let document = Document {
        path: "/work/deploy.toml".to_string(),
        registries: vec![
            RegistryEntry { password: some("NOWHERE"), ..registry_entry("broken", Vec::new()) },
            registry_entry("prod", vec![image_entry("app")]),
        ],
    };
    let config = DeploymentConfig::collect_registries(&vec![document], &environment()).unwrap();
    assert_eq!(config.registries.len(), 1);
    assert_eq!(config.registries[0].name, "prod");
    assert_eq!(config.rejections.len(), 1);
    assert_eq!(config.rejections[0].registry, "broken");
}

#[test]
fn config_files_are_selected_and_sorted() {
    let files = vec![
        "/r/b/deploy.toml".to_string(),
        "/r/readme.md".to_string(),
        "/r/a/deploy.toml".to_string(),
        "/r/a/other.toml".to_string(),
        "/r/deploy.toml".to_string(),
    ];
    assert_eq!(
        DeploymentConfig::collect_config_files("deploy.toml", &files),
        vec![
            "/r/a/deploy.toml".to_string(),
            "/r/b/deploy.toml".to_string(),
            "/r/deploy.toml".to_string(),
        ]
    );
}

#[test]
fn no_config_file_gives_an_empty_configuration() {
    let files = vec![SourceFile { path: "/r/readme.md".to_string(), content: "x".to_string() }];
    let config = DeploymentConfig::lookup("deploy.toml", &files, &environment()).unwrap();
    assert_eq!(config.registries.len(), 0);
    assert_eq!(config.rejections.len(), 0);
}

#[test]
fn lookup_reads_and_resolves_a_file() {
    let files = vec![
        SourceFile { path: "/work/readme.md".to_string(), content: "not toml = = =".to_string() },
        SourceFile { path: "/work/service/deploy.toml".to_string(), content: SAMPLE.to_string() },
    ];
    let config = DeploymentConfig::lookup("deploy.toml", &files, &environment()).unwrap();
    assert_eq!(config.rejections, Vec::<Rejection>::new());
    assert_eq!(config.registries.len(), 1);
    assert_eq!(config.registries[0].name, "prod");
    assert_eq!(
        config.registries[0].entries,
        vec![RegistryConfig {
            hostname: "prod-host".to_string(),
            username: "deployer".to_string(),
            password: "secret".to_string(),
            images: vec![resolved_image()],
        }]
    );
}

#[test]
fn lookup_reads_files_in_the_order_of_their_paths() {
    let second = SAMPLE.replace("\"app\"", "\"second\"");
    let files = vec![
        SourceFile { path: "/work/b/deploy.toml".to_string(), content: second },
        SourceFile { path: "/work/a/deploy.toml".to_string(), content: SAMPLE.to_string() },
    ];
    let config = DeploymentConfig::lookup("deploy.toml", &files, &environment()).unwrap();
    assert_eq!(config.registries.len(), 1);
    let entries = &config.registries[0].entries;
    assert_eq!(entries.len(), 2);
    assert_eq!(entries[0].images[0].name, "app");
    assert_eq!(entries[0].images[0].path, "/work/a");
    assert_eq!(entries[1].images[0].name, "second");
    assert_eq!(entries[1].images[0].path, "/work/b");
}

#[test]
fn lookup_twice_gives_the_same_configuration() {
    let files =
        vec![SourceFile { path: "/w/deploy.toml".to_string(), content: SAMPLE.to_string() }];
    let first = DeploymentConfig::lookup("deploy.toml", &files, &environment());
    let second = DeploymentConfig::lookup("deploy.toml", &files, &environment());
    assert_eq!(first, second);
}

#[test]
fn lookup_fails_on_text_that_is_no_toml() {
    let files =
        vec![SourceFile { path: "/w/deploy.toml".to_string(), content: "[registries".to_string() }];
    assert_eq!(
        DeploymentConfig::lookup("deploy.toml", &files, &environment()),
        Err(ConfigError::Syntax)
    );
}

#[test]
fn lookup_fails_without_a_registries_table() {
    let files =
        vec![SourceFile { path: "/w/deploy.toml".to_string(), content: "title = 1".to_string() }];
    assert_eq!(
        DeploymentConfig::lookup("deploy.toml", &files, &environment()),
        Err(ConfigError::Malformed)
    );
}

#[test]
fn app_config_takes_the_trimmed_file_name() {
    let env = Environment::new(vec![variable("CONFIG_FILE", " deploy.toml\n")]);
    assert_eq!(AppConfig::lookup(&env), Ok(AppConfig { config_file: "deploy.toml".to_string() }));
}

#[test]
fn app_config_needs_the_variable() {
    assert_eq!(AppConfig::lookup(&environment()), Err(AppConfigError::NotPresent));
    let env = Environment::new(vec![Variable { name: "CONFIG_FILE".to_string(), value: Content::NotUnicode("\"\\xFF\"".to_string()) }]);
    assert_eq!(AppConfig::lookup(&env), Err(AppConfigError::NotUnicode));
}

#[test]
fn app_config_refuses_a_path() {
    let env = Environment::new(vec![variable("CONFIG_FILE", "conf/deploy.toml")]);
    assert_eq!(AppConfig::lookup(&env), Err(AppConfigError::Directory));
}

#[test]
fn app_config_refuses_another_suffix() {
    let env = Environment::new(vec![variable("CONFIG_FILE", "deploy.yaml")]);
    assert_eq!(AppConfig::lookup(&env), Err(AppConfigError::NotToml));
    let env = Environment::new(vec![variable("CONFIG_FILE", "")]);
    assert_eq!(AppConfig::lookup(&env), Err(AppConfigError::NotToml));
}

#[test]
fn dry_run_needs_exactly_true() {
    assert!(is_dry_run(&Environment::new(vec![variable("DRY_RUN", "true")])));
    assert!(!is_dry_run(&Environment::new(vec![variable("DRY_RUN", "True")])));
    assert!(!is_dry_run(&Environment::new(vec![variable("DRY_RUN", "true ")])));
    assert!(!is_dry_run(&Environment::new(vec![variable("DRY_RUN", "1")])));
    assert!(!is_dry_run(&environment()));
}
