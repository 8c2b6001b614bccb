use projector::creator::{Action, Event, Materializer};
use projector::entities::{DirEntry, Directory, EntryType, File};
use projector::error::{ContractViolation, CreateError};
use std::collections::BTreeMap;
use std::io::{Error, ErrorKind};
use std::path::Path;

#[derive(Debug, Clone, Copy, PartialEq)]
enum Kind {
    Dir,
    File,
}

/// A file system kept in memory: what exists, and what was asked of it.
struct Disk {
    objects: BTreeMap<String, Kind>,
    refuse: Option<String>,
    asked: Vec<Action>,
}

impl Disk {
    fn empty() -> Disk {
        Disk { objects: BTreeMap::new(), refuse: None, asked: Vec::new() }
    }

    fn make_dirs(&mut self, path: &Path) {
        let mut at = Some(path);
        while let Some(p) = at {
            let text = p.to_str().unwrap();
            if !text.is_empty() {
                self.objects.entry(text.to_string()).or_insert(Kind::Dir);
            }
            at = p.parent();
        }
    }

    fn refused(&self, path: &str) -> Option<Event> {
        match &self.refuse {
            Some(p) if p == path => Some(Event::Failed(Error::from(ErrorKind::PermissionDenied))),
            _ => None,
        }
    }

    fn perform(&mut self, action: &Action) -> Event {
        self.asked.push(match action {
            Action::Probe(p) => Action::Probe(p.clone()),
            Action::CreateDirAll(p) => Action::CreateDirAll(p.clone()),
            Action::EnsureParent(p) => Action::EnsureParent(p.clone()),
            Action::CreateFile(p) => Action::CreateFile(p.clone()),
            Action::Stop => Action::Stop,
        });
        match action {
            Action::Probe(p) => {
                let plain = p.trim_end_matches('/');
                if self.objects.contains_key(plain) {
                    Event::Exists
                } else {
                    Event::Missing
                }
            }
            Action::CreateDirAll(p) => {
                if let Some(failed) = self.refused(p) {
                    return failed;
                }
                self.make_dirs(Path::new(p));
                Event::Created
            }
            Action::EnsureParent(p) => {
                if let Some(parent) = Path::new(p).parent() {
                    self.make_dirs(parent);
                }
                Event::Created
            }
            Action::CreateFile(p) => {
                if let Some(failed) = self.refused(p) {
                    return failed;
                }
                self.objects.insert(p.clone(), Kind::File);
                Event::Created
            }
            Action::Stop => unreachable!(),
        }
    }
}

fn create_path(disk: &mut Disk, out_dir: &str, entries: Vec<DirEntry>) -> Result<(), CreateError> {
    let mut run = Materializer::new(out_dir.to_string(), entries)?;
    let mut action = run.action();
    while action != Action::Stop {
        let event = disk.perform(&action);
        action = run.step(event);
    }
    run.outcome().unwrap()
}

fn entry(entry_type: EntryType, path: &str) -> DirEntry {
    DirEntry::new(entry_type, path.to_string())
}

fn nested_app() -> Directory {
    Directory {
        name: "app".to_string(),
        files: None,
        directories: Some(vec![Directory {
            name: "src".to_string(),
            files: Some(vec![File { name: "main.ext".to_string(), content: None }]),
            directories: None,
        }]),
    }
}

fn paths(disk: &Disk) -> Vec<(String, Kind)> {
    disk.objects.iter().map(|(p, k)| (p.clone(), *k)).collect()
}

#[test]
fn fresh_root_gets_directories_and_empty_file() {
    let mut disk = Disk::empty();
    let done = create_path(&mut disk, "", nested_app().walk());
    assert!(done.is_ok());
    assert_eq!(
        paths(&disk),
        vec![
            ("app".to_string(), Kind::Dir),
            ("app/src".to_string(), Kind::Dir),
            ("app/src/main.ext".to_string(), Kind::File),
        ]
    );
    assert_eq!(
        disk.asked,
        vec![
            Action::Probe("app/src/main.ext".to_string()),
            Action::EnsureParent("app/src/main.ext".to_string()),
            Action::CreateFile("app/src/main.ext".to_string()),
        ]
    );
}

#[test]
fn second_run_is_a_no_op() {
    let mut disk = Disk::empty();
    create_path(&mut disk, "", nested_app().walk()).unwrap();
    let after_first = paths(&disk);
    disk.asked.clear();
    let again = create_path(&mut disk, "", nested_app().walk());
    assert!(again.is_ok());
    assert_eq!(paths(&disk), after_first);
    assert_eq!(disk.asked, vec![Action::Probe("app/src/main.ext".to_string())]);
}

#[test]
fn every_file_entry_is_created() {
    let mut disk = Disk::empty();
    let entries = vec![
        entry(EntryType::File, "a/one.txt"),
        entry(EntryType::File, "a/two.txt"),
        entry(EntryType::Directory, "b/leaf"),
        entry(EntryType::File, "three.txt"),
    ];
    create_path(&mut disk, "out/", entries).unwrap();
    let files: Vec<String> = disk
        .objects
        .iter()
        .filter(|(_, k)| **k == Kind::File)
        .map(|(p, _)| p.clone())
        .collect();
    assert_eq!(
        files,
        vec![
            "out/a/one.txt".to_string(),
            "out/a/two.txt".to_string(),
            "out/three.txt".to_string()
        ]
    );
    assert_eq!(disk.objects.get("out/b/leaf"), Some(&Kind::Dir));
    let created = disk.asked.iter().filter(|a| matches!(a, Action::CreateFile(_))).count();
    assert_eq!(created, 3);
}

#[test]
fn target_is_root_and_path_put_together() {
    let run = Materializer::new(
        "/tmp/project_template/".to_string(),
        vec![entry(EntryType::Directory, "proj/empty_dir")],
    )
    .unwrap();
    assert_eq!(run.action(), Action::Probe("/tmp/project_template/proj/empty_dir".to_string()));
    let bare = Materializer::new("/tmp/out".to_string(), vec![entry(EntryType::File, "x")]).unwrap();
    assert_eq!(bare.action(), Action::Probe("/tmp/outx".to_string()));
}

#[test]
fn missing_directory_is_created_in_one_action() {
    let mut run =
        Materializer::new("o/".to_string(), vec![entry(EntryType::Directory, "d/e")]).unwrap();
    assert_eq!(run.step(Event::Missing), Action::CreateDirAll("o/d/e".to_string()));
    assert_eq!(run.step(Event::Created), Action::Stop);
    assert!(matches!(run.outcome(), Some(Ok(()))));
}

#[test]
fn missing_file_gets_its_parent_first() {
    let mut run = Materializer::new(
        "o/".to_string(),
        vec![entry(EntryType::File, "d/f"), entry(EntryType::Directory, "g")],
    )
    .unwrap();
    assert_eq!(run.step(Event::Missing), Action::EnsureParent("o/d/f".to_string()));
    assert_eq!(run.step(Event::Created), Action::CreateFile("o/d/f".to_string()));
    assert_eq!(run.step(Event::Created), Action::Probe("o/g".to_string()));
    assert!(run.outcome().is_none());
}

#[test]
fn existing_object_of_the_wrong_kind_is_skipped() {
    let mut disk = Disk::empty();
    disk.objects.insert("o/thing".to_string(), Kind::File);
    disk.objects.insert("o/other".to_string(), Kind::Dir);
    let entries = vec![entry(EntryType::Directory, "thing"), entry(EntryType::File, "other")];
    let done = create_path(&mut disk, "o/", entries);
    assert!(done.is_ok());
    assert_eq!(disk.objects.get("o/thing"), Some(&Kind::File));
    assert_eq!(disk.objects.get("o/other"), Some(&Kind::Dir));
    assert_eq!(
        disk.asked,
        vec![Action::Probe("o/thing".to_string()), Action::Probe("o/other".to_string())]
    );
}

#[test]
fn first_failure_ends_the_run_and_keeps_what_was_made() {
    let mut disk = Disk::empty();
    disk.refuse = Some("o/b".to_string());
    let entries = vec![
        entry(EntryType::Directory, "a"),
        entry(EntryType::Directory, "b"),
        entry(EntryType::Directory, "c"),
    ];
    let done = create_path(&mut disk, "o/", entries);
    match done {
        Err(CreateError::Io(e)) => assert_eq!(e.kind(), ErrorKind::PermissionDenied),
        other => panic!("expected an I/O error, got {:?}", other),
    }
    assert_eq!(disk.objects.get("o/a"), Some(&Kind::Dir));
    assert!(!disk.objects.contains_key("o/b"));
    assert!(!disk.objects.contains_key("o/c"));
    assert_eq!(disk.asked.last(), Some(&Action::CreateDirAll("o/b".to_string())));
}

#[test]
fn failure_while_creating_a_file_is_reported() {
    let mut run = Materializer::new("o/".to_string(), vec![entry(EntryType::File, "f")]).unwrap();
    run.step(Event::Missing);
    run.step(Event::Created);
    let after = run.step(Event::Failed(Error::from(ErrorKind::AlreadyExists)));
    assert_eq!(after, Action::Stop);
    assert_eq!(run.step(Event::Created), Action::Stop);
    match run.outcome() {
        Some(Err(CreateError::Io(e))) => assert_eq!(e.kind(), ErrorKind::AlreadyExists),
        other => panic!("expected an I/O error, got {:?}", other),
    }
}

#[test]
fn failure_while_probing_is_reported() {
    let mut run = Materializer::new("o/".to_string(), vec![entry(EntryType::File, "f")]).unwrap();
    assert_eq!(run.step(Event::Failed(Error::from(ErrorKind::NotFound))), Action::Stop);
    assert!(matches!(run.outcome(), Some(Err(CreateError::Io(_)))));
}

#[test]
fn unknown_entry_is_refused_before_anything_is_asked() {
    let entries = vec![entry(EntryType::Directory, "a"), entry(EntryType::Unknown, "b")];
    let made = Materializer::new("o/".to_string(), entries);
    assert!(matches!(made, Err(CreateError::Violation(ContractViolation::UnknownEntry))));
}

#[test]
fn event_that_answers_nothing_ends_the_run() {
    let mut run =
        Materializer::new("o/".to_string(), vec![entry(EntryType::Directory, "a")]).unwrap();
    assert_eq!(run.step(Event::Created), Action::Stop);
    assert!(matches!(
        run.outcome(),
        Some(Err(CreateError::Violation(ContractViolation::UnexpectedEvent)))
    ));

    let mut run =
        Materializer::new("o/".to_string(), vec![entry(EntryType::Directory, "a")]).unwrap();
    run.step(Event::Missing);
    assert_eq!(run.step(Event::Exists), Action::Stop);
    assert!(matches!(
        run.outcome(),
        Some(Err(CreateError::Violation(ContractViolation::UnexpectedEvent)))
    ));
}

#[test]
fn empty_list_is_over_at_once() {
    let mut run = Materializer::new("o/".to_string(), Vec::new()).unwrap();
    assert_eq!(run.action(), Action::Stop);
    assert_eq!(run.step(Event::Exists), Action::Stop);
    assert!(matches!(run.outcome(), Some(Ok(()))));
}

#[test]
fn finished_run_ignores_later_events() {
    let mut run =
        Materializer::new("o/".to_string(), vec![entry(EntryType::Directory, "a")]).unwrap();
    assert_eq!(run.step(Event::Exists), Action::Stop);
    assert_eq!(run.step(Event::Failed(Error::from(ErrorKind::Other))), Action::Stop);
    assert!(matches!(run.outcome(), Some(Ok(()))));
}

#[test]
fn run_takes_at_most_three_events_per_entry() {
    let entries = vec![
        entry(EntryType::File, "a/f"),
        entry(EntryType::Directory, "b"),
        entry(EntryType::File, "g"),
    ];
    let mut disk = Disk::empty();
    create_path(&mut disk, "o/", entries).unwrap();
    assert_eq!(disk.asked.len(), 3 + 2 + 3);
    assert_eq!(
        disk.asked,
        vec![
            Action::Probe("o/a/f".to_string()),
            Action::EnsureParent("o/a/f".to_string()),
            Action::CreateFile("o/a/f".to_string()),
            Action::Probe("o/b".to_string()),
            Action::CreateDirAll("o/b".to_string()),
            Action::Probe("o/g".to_string()),
            Action::EnsureParent("o/g".to_string()),
            Action::CreateFile("o/g".to_string()),
        ]
    );
}

#[test]
fn walked_tree_is_always_accepted() {
    let made = Materializer::new("o/".to_string(), nested_app().walk());
    assert!(made.is_ok());
}
