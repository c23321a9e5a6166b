use registry_deploy::containerfile::Containerfile;
use registry_deploy::environment::{Content, Environment, Variable};
use registry_deploy::ghcr::Ghcr;
use registry_deploy::util::{FileTree, FileUtil};

fn file(path: &str) -> FileTree {
    FileTree::File(path.to_string())
}

#[test]
fn list_files_of_a_file_is_the_file() {
    assert_eq!(FileUtil::list_files(&file("/r/a.txt")), vec!["/r/a.txt".to_string()]);
}

#[test]
fn list_files_of_nothing_is_empty() {
    assert_eq!(FileUtil::list_files(&FileTree::Other), Vec::<String>::new());
    assert_eq!(FileUtil::list_files(&FileTree::Directory(Vec::new())), Vec::<String>::new());
}

#[test]
fn list_files_descends_into_directories() {
    let tree = FileTree::Directory(vec![
        file("/r/a"),
        FileTree::Directory(vec![
            file("/r/d/b"),
            FileTree::Directory(vec![file("/r/d/e/c")]),
            FileTree::Other,
        ]),
        FileTree::Directory(Vec::new()),
        file("/r/z"),
    ]);
    assert_eq!(
        FileUtil::list_files(&tree),
        vec![
            "/r/a".to_string(),
            "/r/d/b".to_string(),
            "/r/d/e/c".to_string(),
            "/r/z".to_string(),
        ]
    );
}

#[test]
fn containerfile_directories_are_found_and_sorted() {
    let files = vec![
        "/r/web/Containerfile".to_string(),
        "/r/readme.md".to_string(),
        "/r/api/Containerfile".to_string(),
        "/r/api/src/main.rs".to_string(),
        "Containerfile".to_string(),
    ];
    assert_eq!(
        Containerfile::new(&files),
        Some(Containerfile {
            paths: vec!["".to_string(), "/r/api".to_string(), "/r/web".to_string()]
        })
    );
}

#[test]
fn containerfile_directories_of_nothing_are_none() {
    assert_eq!(Containerfile::new(&Vec::new()), Some(Containerfile { paths: Vec::new() }));
    assert_eq!(
        Containerfile::new(&vec!["/r/readme.md".to_string()]),
        Some(Containerfile { paths: Vec::new() })
    );
}

#[test]
fn ghcr_asks_with_the_token_of_the_environment() {
    let environment = Environment::new(vec![Variable {
        name: "GH_PASSWORD".to_string(),
        value: Content::Text("secret".to_string()),
    }]);
    let ghcr = Ghcr::new("owner".to_string());
    assert_eq!(ghcr.registry, "owner");
    let request = ghcr.list_tags("app", &environment).unwrap();
    assert_eq!(request.endpoint, "https://ghcr.io/v2/owner/app/tags/list");
    assert_eq!(request.authorization, "Bearer c2VjcmV0");
}

#[test]
fn ghcr_without_a_token_asks_nothing() {
    let ghcr = Ghcr::new("owner".to_string());
    assert_eq!(ghcr.list_tags("app", &Environment::new(Vec::new())), None);
}
