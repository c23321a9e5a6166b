use registry_deploy::docker::{
    authorization, bearer_header, check, format_stderr, is_success, login, login_display,
    tags_of_response, Docker,
};

fn sample() -> Docker {
    Docker::new(
        "/work/service".to_string(),
        "Containerfile".to_string(),
        "prod-host".to_string(),
        "secret".to_string(),
        "repo".to_string(),
        "app".to_string(),
        "v1".to_string(),
    )
}

#[test]
fn new_image_has_no_hash() {
    let docker = sample();
    assert!(!docker.has_hash());
    assert_eq!(docker.hash(), "");
    assert_eq!(docker.path(), "/work/service");
    assert_eq!(docker.tag_name(), "v1");
}

#[test]
fn build_command_names_target_and_source() {
    assert_eq!(
        sample().build_command(),
        "docker build -q -t prod-host/repo/app -f Containerfile ."
    );
}

#[test]
fn successful_build_keeps_the_trimmed_hash() {
    let mut docker = sample();
    docker.build(true, "sha256:0123abcd\n");
    assert!(docker.has_hash());
    assert_eq!(docker.hash(), "sha256:0123abcd");
}

#[test]
fn failed_build_leaves_the_hash_empty() {
    let mut docker = sample();
    docker.build(false, "sha256:0123abcd\n");
    assert!(!docker.has_hash());
}

#[test]
fn successful_build_that_prints_nothing_leaves_no_hash() {
    let mut docker = sample();
    docker.build(true, " \n");
    assert!(!docker.has_hash());
}

#[test]
fn commands_without_a_hash_are_left_out() {
    let docker = sample();
    assert_eq!(docker.tag(), None);
    assert_eq!(docker.push(), None);
    assert_eq!(docker.cleanup(), None);
}

#[test]
fn commands_with_a_hash_name_it() {
    let mut docker = sample();
    docker.build(true, "abc123");
    assert_eq!(docker.tag(), Some("docker tag abc123 prod-host/repo/app:v1".to_string()));
    assert_eq!(docker.push(), Some("docker push prod-host/repo/app:v1".to_string()));
    assert_eq!(docker.cleanup(), Some("docker rmi abc123 -f".to_string()));
}

#[test]
fn duplicate_is_the_same_image() {
    let mut docker = sample();
    docker.build(true, "abc123");
    assert_eq!(docker.duplicate(), docker);
}

#[test]
fn tag_list_asks_the_registry_with_a_bearer_token() {
    let request = sample().tag_list();
    assert_eq!(request.endpoint, "https://prod-host/v2/repo/app/tags/list");
    assert_eq!(request.authorization, "Bearer c2VjcmV0");
}

#[test]
fn authorization_encodes_the_credential() {
    assert_eq!(authorization("secret"), "Bearer c2VjcmV0");
    assert_eq!(authorization(""), "Bearer ");
    assert_eq!(authorization("a"), "Bearer YQ==");
    assert_eq!(authorization("user:pässword"), "Bearer dXNlcjpww6Rzc3dvcmQ=");
}

#[test]
fn bearer_header_puts_the_scheme_first() {
    assert_eq!(bearer_header("abc"), "Bearer abc");
}

#[test]
fn success_is_the_two_hundreds() {
    assert!(is_success(200));
    assert!(is_success(204));
    assert!(is_success(299));
    assert!(!is_success(199));
    assert!(!is_success(300));
    assert!(!is_success(404));
    assert!(!is_success(500));
}

#[test]
fn tags_of_a_failed_answer_are_none() {
    let listed = vec!["v1".to_string(), "latest".to_string()];
    assert_eq!(tags_of_response(404, listed.clone()), Vec::<String>::new());
    assert_eq!(tags_of_response(401, listed.clone()), Vec::<String>::new());
    assert_eq!(tags_of_response(200, listed.clone()), listed);
}

#[test]
fn check_asks_for_the_engine() {
    assert_eq!(check(), "which docker");
}

#[test]
fn login_pipes_the_password() {
    assert_eq!(
        login("prod-host", "user", "secret"),
        "echo secret | docker login prod-host -u user --password-stdin"
    );
    assert_eq!(
        login_display("prod-host", "user"),
        "echo <REDACTED> | docker login prod-host -u user --password-stdin"
    );
}

#[test]
fn format_stderr_indents_each_line() {
    assert_eq!(
        format_stderr("error: no such file\n  at step 3  \n"),
        "        error: no such file\n        at step 3"
    );
}

#[test]
fn format_stderr_leaves_blank_lines_out() {
    assert_eq!(format_stderr("a\n\n   \nb"), "        a\n        b");
    assert_eq!(format_stderr("\r\na\r\n"), "        a");
}

#[test]
fn format_stderr_of_nothing_is_empty() {
    assert_eq!(format_stderr(""), "");
    assert_eq!(format_stderr("\n \n"), "");
}

#[test]
fn format_stderr_of_one_line() {
    assert_eq!(format_stderr("denied"), "        denied");
}
