use aeditor::backup::{BackupError, BackupFile};
use aeditor::traversal::{is_excluded, Listed, Probe, Step, Walker};

fn entry(name: &str, path: &str) -> Listed {
    Listed::Entry { name: name.to_string(), path: path.to_string() }
}

fn text_file(content: &str) -> Probe {
    Probe::File(Some(content.to_string()))
}

/// Drives a traversal with the answers of `answer`, and gives the files and
/// their total size, with the paths that were asked for.
fn drive(
    root: Result<Vec<Listed>, String>,
    answer: &dyn Fn(&str) -> Probe,
) -> (Result<(Vec<BackupFile>, usize), BackupError>, Vec<String>) {
    let mut asked = Vec::new();
    let mut walker = match Walker::start(root) {
        Ok(w) => w,
        Err(e) => return (Err(e), asked),
    };
    loop {
        match walker.next() {
            Step::Done(collected) => return (Ok(collected.into_parts()), asked),
            Step::Failed(e) => return (Err(e), asked),
            Step::Probe(probing) => {
                asked.push(probing.path().to_string());
                let probe = answer(probing.path());
                assert!(probing.has_room_for(&probe));
                walker = match probing.supply(probe) {
                    Ok(w) => w,
                    Err(e) => return (Err(e), asked),
                };
            }
        }
    }
}

fn project(path: &str) -> Probe {
    match path {
        "/p/a.txt" => text_file("hello"),
        "/p/src" => Probe::Directory(Ok(vec![
            entry("main.ts", "/p/src/main.ts"),
            entry("lib", "/p/src/lib"),
            entry("z.ts", "/p/src/z.ts"),
        ])),
        "/p/src/main.ts" => text_file("main"),
        "/p/src/lib" => Probe::Directory(Ok(vec![
            entry("dist", "/p/src/lib/dist"),
            entry("u.ts", "/p/src/lib/u.ts"),
        ])),
        "/p/src/lib/u.ts" => text_file("é"),
        "/p/src/z.ts" => text_file(""),
        "/p/logo.png" => Probe::File(None),
        "/p/socket" => Probe::Other,
        "/p/b.txt" => text_file("bye"),
        other => panic!("asked for {}", other),
    }
}

fn project_root() -> Vec<Listed> {
    vec![
        entry(".git", "/p/.git"),
        entry("a.txt", "/p/a.txt"),
        entry("node_modules", "/p/node_modules"),
        entry("src", "/p/src"),
        entry("target", "/p/target"),
        entry("logo.png", "/p/logo.png"),
        entry("socket", "/p/socket"),
        entry("build", "/p/build"),
        entry("b.txt", "/p/b.txt"),
        entry(".env", "/p/.env"),
    ]
}

#[test]
fn exclusion_policy() {
    for name in [".git", ".", ".env", "node_modules", "target", "dist", "build"] {
        assert!(is_excluded(name), "{}", name);
    }
    for name in ["", "src", "a.txt", "node_modules2", "Target", "dist.txt", "x.build", "builds"] {
        assert!(!is_excluded(name), "{}", name);
    }
}

#[test]
fn traversal_is_depth_first_in_listing_order() {
    let (result, asked) = drive(Ok(project_root()), &project);
    let (files, total) = result.unwrap();
    let paths: Vec<&str> = files.iter().map(|f| f.path.as_str()).collect();
    assert_eq!(paths, vec!["/p/a.txt", "/p/src/main.ts", "/p/src/lib/u.ts", "/p/src/z.ts", "/p/b.txt"]);
    let contents: Vec<&str> = files.iter().map(|f| f.content.as_str()).collect();
    assert_eq!(contents, vec!["hello", "main", "é", "", "bye"]);
    assert_eq!(total, 5 + 4 + 2 + 0 + 3);
    assert_eq!(
        asked,
        vec![
            "/p/a.txt", "/p/src", "/p/src/main.ts", "/p/src/lib", "/p/src/lib/u.ts",
            "/p/src/z.ts", "/p/logo.png", "/p/socket", "/p/b.txt",
        ]
    );
}

#[test]
fn traversal_never_asks_for_an_excluded_entry() {
    let (_, asked) = drive(Ok(project_root()), &project);
    for path in ["/p/.git", "/p/node_modules", "/p/target", "/p/build", "/p/.env", "/p/src/lib/dist"] {
        assert!(!asked.iter().any(|p| p == path), "{}", path);
    }
}

#[test]
fn traversal_records_the_fingerprint_of_each_content() {
    let (result, _) = drive(Ok(vec![entry("a.txt", "/p/a.txt")]), &project);
    let (files, _) = result.unwrap();
    assert_eq!(files[0].hash, "2cf24dba5fb0a30e26e83b2ac5b9e29e1b161e5c1fa7425e73043362938b9824");
}

#[test]
fn traversal_of_an_empty_directory_records_nothing() {
    let (result, asked) = drive(Ok(vec![]), &project);
    let (files, total) = result.unwrap();
    assert!(files.is_empty());
    assert_eq!(total, 0);
    assert!(asked.is_empty());
}

#[test]
fn traversal_fails_when_the_root_cannot_be_listed() {
    let (result, asked) = drive(Err("denied".to_string()), &project);
    assert_eq!(result.err().unwrap().message(), "Failed to read directory: denied");
    assert!(asked.is_empty());
}

#[test]
fn traversal_fails_when_a_directory_cannot_be_listed() {
    let answer = |path: &str| match path {
        "/p/a.txt" => text_file("hello"),
        "/p/src" => Probe::Directory(Err("gone".to_string())),
        other => panic!("asked for {}", other),
    };
    let root = vec![entry("a.txt", "/p/a.txt"), entry("src", "/p/src"), entry("b.txt", "/p/b.txt")];
    let (result, asked) = drive(Ok(root), &answer);
    assert!(matches!(result, Err(BackupError::Io(_))));
    assert_eq!(result.err().unwrap().message(), "Failed to read directory: gone");
    assert_eq!(asked, vec!["/p/a.txt", "/p/src"]);
}

#[test]
fn traversal_fails_at_an_entry_that_cannot_be_read() {
    let root = vec![
        entry("a.txt", "/p/a.txt"),
        Listed::Failed("broken".to_string()),
        entry("b.txt", "/p/b.txt"),
    ];
    let (result, asked) = drive(Ok(root), &project);
    assert_eq!(result.err().unwrap().message(), "Failed to read entry: broken");
    assert_eq!(asked, vec!["/p/a.txt"]);
}

#[test]
fn traversal_handles_what_comes_before_a_failed_entry_of_a_subdirectory() {
    let answer = |path: &str| match path {
        "/p/src" => Probe::Directory(Ok(vec![
            entry("node_modules", "/p/src/node_modules"),
            Listed::Failed("broken".to_string()),
        ])),
        other => panic!("asked for {}", other),
    };
    let (result, asked) = drive(Ok(vec![entry("src", "/p/src"), entry("b", "/p/b")]), &answer);
    assert_eq!(result.err().unwrap().message(), "Failed to read entry: broken");
    assert_eq!(asked, vec!["/p/src"]);
}

#[test]
fn collected_files_and_total_size() {
    let mut walker = Walker::start(Ok(vec![entry("a", "/a"), entry("b", "/b")])).unwrap();
    let collected = loop {
        match walker.next() {
            Step::Probe(p) => walker = p.supply(text_file("12345")).unwrap(),
            Step::Done(c) => break c,
            Step::Failed(e) => panic!("{}", e.message()),
        }
    };
    assert_eq!(collected.files().len(), 2);
    assert_eq!(collected.total_size(), 10);
}
