use aeditor::backup::{
    copy_files, Backup, BackupError, BackupFile, BackupManager, Draft, RecordRead,
};
use aeditor::text::describe;
use aeditor::traversal::{Collected, Listed, Probe, Step, Walker};

fn entry(name: &str, path: &str) -> Listed {
    Listed::Entry { name: name.to_string(), path: path.to_string() }
}

fn collect(root: Vec<Listed>, answer: &dyn Fn(&str) -> Probe) -> Collected {
    let mut walker = Walker::start(Ok(root)).unwrap();
    loop {
        match walker.next() {
            Step::Done(collected) => return collected,
            Step::Failed(e) => panic!("{}", e.message()),
            Step::Probe(probing) => {
                let probe = answer(probing.path());
                assert!(probing.has_room_for(&probe));
                walker = probing.supply(probe).unwrap();
            }
        }
    }
}

fn single(content: &'static str) -> Collected {
    collect(vec![entry("f.txt", "/w/f.txt")], &move |_| Probe::File(Some(content.to_string())))
}

fn manager() -> BackupManager {
    BackupManager::new("/data/backups".to_string(), Ok(())).unwrap()
}

fn snapshot(timestamp: u64, content: &'static str) -> Draft {
    Draft::new(timestamp, None, None, "manual", single(content))
}

fn ids(manager: &BackupManager) -> Vec<String> {
    let mut ids: Vec<String> = manager.get_backups().iter().map(|b| b.id.clone()).collect();
    ids.sort();
    ids
}

#[test]
fn concrete_scenario() {
    let answer = |path: &str| match path {
        "/proj/a.txt" => Probe::File(Some("hello".to_string())),
        other => panic!("asked for {}", other),
    };
    let root = vec![entry("a.txt", "/proj/a.txt"), entry("node_modules", "/proj/node_modules")];
    let collected = collect(root, &answer);
    let backup = Draft::new(1700000000123, None, None, "manual", collected);
    let mut store = manager();
    let created = store.create_backup(backup, Ok(())).unwrap();
    assert_eq!(created.file_count, 1);
    assert!(created.files[0].path.ends_with("a.txt"));
    assert_eq!(created.files[0].content, "hello");
    assert_eq!(created.size, 5);
    assert_eq!(created.id, "backup_1700000000123");
    assert_eq!(created.timestamp, 1700000000123);
    assert_eq!(created.backup_type, "manual");
    assert_eq!(created.name, None);
    assert_eq!(created.description, None);
}

#[test]
fn compare_scenario() {
    let mut store = manager();
    let created = store.create_backup(snapshot(1, "v1"), Ok(())).unwrap();
    let compared = store.compare_backup(&created.id, Some("v2".to_string())).unwrap();
    assert_eq!(compared, ("v2".to_string(), "v1".to_string()));
}

#[test]
fn exclusion_scenario() {
    let answer = |path: &str| match path {
        "/proj/src" => Probe::Directory(Ok(vec![
            entry("node_modules", "/proj/src/node_modules"),
            entry("x.ts", "/proj/src/x.ts"),
        ])),
        "/proj/src/x.ts" => Probe::File(Some("x".to_string())),
        other => panic!("asked for {}", other),
    };
    let collected = collect(vec![entry("src", "/proj/src")], &answer);
    let draft = Draft::new(5, None, None, "auto", collected);
    let backup = draft.backup();
    assert!(backup.files.iter().all(|f| !f.path.contains("node_modules")));
    assert_eq!(backup.file_count, 1);
}

#[test]
fn capture_sets_consistent_aggregates() {
    let answer = |path: &str| match path {
        "/p/a" => Probe::File(Some("héllo".to_string())),
        "/p/b" => Probe::File(Some("".to_string())),
        "/p/c" => Probe::File(Some("☃☃".to_string())),
        other => panic!("asked for {}", other),
    };
    let root = vec![entry("a", "/p/a"), entry("b", "/p/b"), entry("c", "/p/c")];
    let draft = Draft::new(
        42,
        Some("release".to_string()),
        Some("before the release".to_string()),
        "auto",
        collect(root, &answer),
    );
    assert_eq!(draft.record_name(), "backup_42.json");
    let backup = draft.backup();
    assert_eq!(backup.id, "backup_42");
    assert_eq!(backup.name.as_deref(), Some("release"));
    assert_eq!(backup.description.as_deref(), Some("before the release"));
    assert_eq!(backup.backup_type, "auto");
    assert_eq!(backup.file_count, backup.files.len());
    assert_eq!(backup.file_count, 3);
    assert_eq!(backup.size, backup.files.iter().map(|f| f.content.len()).sum::<usize>());
    assert_eq!(backup.size, 6 + 0 + 6);
}

#[test]
fn capture_of_nothing() {
    let draft = Draft::new(0, None, None, "manual", collect(vec![], &|_| Probe::Other));
    let backup = draft.backup();
    assert_eq!(backup.id, "backup_0");
    assert_eq!(backup.file_count, 0);
    assert_eq!(backup.size, 0);
    assert!(backup.files.is_empty());
}

#[test]
fn new_store_is_empty() {
    let store = manager();
    assert!(store.get_backups().is_empty());
    assert_eq!(store.backups_dir(), "/data/backups");
}

#[test]
fn new_store_fails_when_the_location_cannot_be_created() {
    let r = BackupManager::new("/data/backups".to_string(), Err("denied".to_string()));
    let e = r.err().unwrap();
    assert!(matches!(e, BackupError::StorageInit(_)));
    assert_eq!(e.message(), "Failed to create backups directory: denied");
}

#[test]
fn create_backup_fails_when_the_record_was_not_written() {
    let mut store = manager();
    let r = store.create_backup(snapshot(1, "a"), Err("disk full".to_string()));
    let e = r.err().unwrap();
    assert!(matches!(e, BackupError::Io(_)));
    assert_eq!(e.message(), "Failed to write backup file: disk full");
    assert!(store.get_backups().is_empty());
}

#[test]
fn create_backup_with_the_same_identifier_replaces() {
    let mut store = manager();
    store.create_backup(snapshot(1, "old"), Ok(())).unwrap();
    store.create_backup(snapshot(2, "other"), Ok(())).unwrap();
    store.create_backup(snapshot(1, "new"), Ok(())).unwrap();
    assert_eq!(ids(&store), vec!["backup_1", "backup_2"]);
    let compared = store.compare_backup("backup_1", None).unwrap();
    assert_eq!(compared.1, "new");
}

#[test]
fn listing_twice_gives_the_same_snapshots() {
    let mut store = manager();
    store.create_backup(snapshot(1, "a"), Ok(())).unwrap();
    store.create_backup(snapshot(2, "b"), Ok(())).unwrap();
    store.create_backup(snapshot(3, "c"), Ok(())).unwrap();
    let first = ids(&store);
    let second = ids(&store);
    assert_eq!(first, second);
    assert_eq!(first, vec!["backup_1", "backup_2", "backup_3"]);
}

#[test]
fn restore_gives_the_files_in_order() {
    let answer = |path: &str| match path {
        "/p/a" => Probe::File(Some("A".to_string())),
        "/p/b" => Probe::File(Some("B".to_string())),
        other => panic!("asked for {}", other),
    };
    let collected = collect(vec![entry("a", "/p/a"), entry("b", "/p/b")], &answer);
    let mut store = manager();
    let created = store.create_backup(Draft::new(9, None, None, "manual", collected), Ok(())).unwrap();
    let files = store.restore_backup(&created.id).unwrap();
    let writes: Vec<(&str, &str)> = files.iter().map(|f| (f.path.as_str(), f.content.as_str())).collect();
    assert_eq!(writes, vec![("/p/a", "A"), ("/p/b", "B")]);
}

#[test]
fn round_trip_into_an_empty_target() {
    let answer = |path: &str| match path {
        "/p/a" => Probe::File(Some("A".to_string())),
        "/p/d" => Probe::Directory(Ok(vec![entry("b", "/p/d/b")])),
        "/p/d/b" => Probe::File(Some("B\n".to_string())),
        other => panic!("asked for {}", other),
    };
    let collected = collect(vec![entry("a", "/p/a"), entry("d", "/p/d")], &answer);
    let mut store = manager();
    let created = store.create_backup(Draft::new(9, None, None, "manual", collected), Ok(())).unwrap();
    let mut target = std::collections::HashMap::new();
    for file in store.restore_backup(&created.id).unwrap() {
        target.insert(file.path.clone(), file.content.clone());
    }
    assert_eq!(target.len(), 2);
    assert_eq!(target["/p/a"], "A");
    assert_eq!(target["/p/d/b"], "B\n");
}

#[test]
fn restore_of_an_unknown_snapshot() {
    let store = manager();
    let e = store.restore_backup("backup_7").err().unwrap();
    assert!(matches!(e, BackupError::NotFound(_)));
    assert_eq!(e.message(), "Backup not found: backup_7");
}

#[test]
fn delete_removes_the_snapshot_and_names_its_record() {
    let mut store = manager();
    store.create_backup(snapshot(1, "a"), Ok(())).unwrap();
    store.create_backup(snapshot(2, "b"), Ok(())).unwrap();
    assert_eq!(store.record_of("backup_1").unwrap(), "backup_1.json");
    store.delete_backup("backup_1", Ok(())).unwrap();
    assert_eq!(ids(&store), vec!["backup_2"]);
    assert!(matches!(store.record_of("backup_1"), Err(BackupError::NotFound(_))));
    assert!(matches!(store.restore_backup("backup_1"), Err(BackupError::NotFound(_))));
}

#[test]
fn delete_leaves_the_index_when_the_record_was_not_removed() {
    let mut store = manager();
    store.create_backup(snapshot(1, "a"), Ok(())).unwrap();
    let e = store.delete_backup("backup_1", Err("No such file".to_string())).err().unwrap();
    assert!(matches!(e, BackupError::Io(_)));
    assert_eq!(e.message(), "Failed to delete backup file: No such file");
    assert_eq!(ids(&store), vec!["backup_1"]);
}

#[test]
fn delete_of_an_unknown_snapshot() {
    let mut store = manager();
    store.create_backup(snapshot(1, "a"), Ok(())).unwrap();
    let e = store.delete_backup("backup_9", Ok(())).err().unwrap();
    assert_eq!(e.message(), "Backup not found: backup_9");
    assert_eq!(ids(&store), vec!["backup_1"]);
    assert_eq!(store.record_of("backup_9").err().unwrap().message(), "Backup not found: backup_9");
}

#[test]
fn compare_of_an_unknown_snapshot() {
    let store = manager();
    let e = store.compare_backup("nope", Some("x".to_string())).err().unwrap();
    assert!(matches!(e, BackupError::NotFound(_)));
}

#[test]
fn compare_of_an_empty_snapshot() {
    let mut store = manager();
    let empty = Draft::new(3, None, None, "manual", collect(vec![], &|_| Probe::Other));
    store.create_backup(empty, Ok(())).unwrap();
    let e = store.compare_backup("backup_3", Some("x".to_string())).err().unwrap();
    assert!(matches!(e, BackupError::EmptySnapshot));
    assert_eq!(e.message(), "Backup has no files");
}

#[test]
fn compare_with_an_unreadable_live_file() {
    let mut store = manager();
    store.create_backup(snapshot(1, "v1"), Ok(())).unwrap();
    let compared = store.compare_backup("backup_1", None).unwrap();
    assert_eq!(compared, ("File not found".to_string(), "v1".to_string()));
}

#[test]
fn compare_uses_the_first_file() {
    let answer = |path: &str| match path {
        "/p/a" => Probe::File(Some("first".to_string())),
        "/p/b" => Probe::File(Some("second".to_string())),
        other => panic!("asked for {}", other),
    };
    let collected = collect(vec![entry("a", "/p/a"), entry("b", "/p/b")], &answer);
    let mut store = manager();
    store.create_backup(Draft::new(4, None, None, "manual", collected), Ok(())).unwrap();
    let compared = store.compare_backup("backup_4", Some("live".to_string())).unwrap();
    assert_eq!(compared.1, "first");
}

#[test]
fn record_names() {
    assert_eq!(BackupManager::record_name("backup_12"), "backup_12.json");
    assert_ne!(BackupManager::record_name("backup_12"), "backup_12");
    for name in ["a.json", "backup_1.json", "a.b.json", "..json", "é.json"] {
        assert!(BackupManager::is_record_file(name), "{}", name);
    }
    for name in [".json", "json", "a.jsonx", "a.JSON", "a.txt", "", "a.json.bak", "ajson"] {
        assert!(!BackupManager::is_record_file(name), "{}", name);
    }
}

#[test]
fn is_record_file_agrees_with_path_extension() {
    for name in ["a.json", ".json", "..json", "a.b.json", "a.json.txt", "json", "x.", "a.jso"] {
        let expected = std::path::Path::new(name).extension().and_then(|s| s.to_str()) == Some("json");
        assert_eq!(BackupManager::is_record_file(name), expected, "{}", name);
    }
}

#[test]
fn storage_listing_maps_the_failure() {
    let e = BackupManager::storage_listing(Err("denied".to_string())).err().unwrap();
    assert!(matches!(e, BackupError::StorageInit(_)));
    assert_eq!(e.message(), "Failed to read backups directory: denied");
    let items = BackupManager::storage_listing(Ok(vec![entry("a.json", "/d/a.json")])).unwrap();
    assert_eq!(items.len(), 1);
}

#[test]
fn record_path_picks_the_records() {
    assert_eq!(
        BackupManager::record_path(&entry("a.json", "/d/a.json")).unwrap(),
        Some("/d/a.json".to_string())
    );
    assert_eq!(BackupManager::record_path(&entry("notes.txt", "/d/notes.txt")).unwrap(), None);
    let e = BackupManager::record_path(&Listed::Failed("broken".to_string())).err().unwrap();
    assert!(matches!(e, BackupError::StorageInit(_)));
    assert_eq!(e.message(), "Failed to read entry: broken");
}

#[test]
fn load_backup_fills_the_index() {
    let mut store = manager();
    let stored = Backup {
        id: "anything".to_string(),
        name: Some("n".to_string()),
        description: None,
        timestamp: 7,
        backup_type: "auto".to_string(),
        file_count: 99,
        size: 1,
        files: vec![BackupFile {
            path: "/p/a".to_string(),
            content: "abc".to_string(),
            hash: "h".to_string(),
        }],
    };
    store.load_backup(RecordRead::Parsed(stored)).unwrap();
    store.load_backup(RecordRead::Parsed(snapshot(1, "x").backup().clone())).unwrap();
    assert_eq!(ids(&store), vec!["anything", "backup_1"]);
    let listed = store.get_backups();
    let loaded = listed.iter().find(|b| b.id == "anything").unwrap();
    assert_eq!(loaded.file_count, 99);
    assert_eq!(loaded.size, 1);
    assert_eq!(loaded.files[0].hash, "h");
    assert_eq!(loaded.name.as_deref(), Some("n"));
}

#[test]
fn load_backup_fails_on_a_corrupt_record() {
    let mut store = manager();
    store.load_backup(RecordRead::Parsed(snapshot(1, "x").backup().clone())).unwrap();
    let e = store.load_backup(RecordRead::Corrupt("expected value".to_string())).err().unwrap();
    assert!(matches!(e, BackupError::CorruptRecord(_)));
    assert_eq!(e.message(), "Failed to parse backup: expected value");
    assert_eq!(ids(&store), vec!["backup_1"]);
}

#[test]
fn load_backup_fails_on_an_unreadable_record() {
    let mut store = manager();
    let e = store.load_backup(RecordRead::Unreadable("denied".to_string())).err().unwrap();
    assert!(matches!(e, BackupError::StorageInit(_)));
    assert_eq!(e.message(), "Failed to read backup file: denied");
    assert!(store.get_backups().is_empty());
}

#[test]
fn errors_have_messages() {
    assert_eq!(BackupError::io("Failed to restore file", "denied").message(), "Failed to restore file: denied");
    assert_eq!(BackupError::NotFound("x".to_string()).message(), "Backup not found: x");
    assert_eq!(BackupError::EmptySnapshot.message(), "Backup has no files");
    assert_eq!(BackupError::CorruptRecord("c".to_string()).message(), "c");
    assert_eq!(BackupError::StorageInit("s".to_string()).message(), "s");
    assert_eq!(describe("a", "b"), "a: b");
}

#[test]
fn copies_keep_every_field() {
    let draft = snapshot(1, "content");
    let backup = draft.backup();
    assert_eq!(format!("{:?}", backup.clone()), format!("{:?}", backup));
    assert_eq!(format!("{:?}", copy_files(&backup.files)), format!("{:?}", backup.files));
}
