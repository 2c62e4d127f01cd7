use std::collections::BTreeMap;

use turbo_delete::engine::{Action, Engine, Event};
use turbo_delete::entry::{Entry, EntryKind, Removal};
use turbo_delete::outcome::{Failure, Outcome};
use turbo_delete::progress::Progress;
use turbo_delete::scan::WalkItem;

/// One node of the disk that these tests delete from.
#[derive(Clone, Debug)]
struct Node {
    kind: EntryKind,
    read_only: bool,
    /// Cannot be removed whatever its attributes say, like a file that
    /// another process holds open.
    pinned: bool,
}

/// A disk in memory. A read-only node cannot be removed until the attribute
/// is cleared.
#[derive(Clone, Debug, Default)]
struct Disk {
    nodes: BTreeMap<String, Node>,
    /// Number of changes made: removals and cleared attributes.
    changes: usize,
    walks: usize,
    /// The walk, counted from 1, that comes across something unreadable.
    spoiled_walk: Option<usize>,
}

impl Disk {
    fn with(mut self, path: &str, kind: EntryKind) -> Disk {
        self.nodes.insert(path.to_string(), Node { kind, read_only: false, pinned: false });
        self
    }

    fn dir(self, path: &str) -> Disk {
        self.with(path, EntryKind::Directory)
    }

    fn file(self, path: &str) -> Disk {
        self.with(path, EntryKind::File)
    }

    fn read_only(mut self, path: &str) -> Disk {
        self.nodes.get_mut(path).unwrap().read_only = true;
        self
    }

    fn pinned(mut self, path: &str) -> Disk {
        self.nodes.get_mut(path).unwrap().pinned = true;
        self
    }

    fn probe(&self, path: &str) -> Option<EntryKind> {
        self.nodes.get(path).map(|node| node.kind)
    }

    fn below(&self, path: &str) -> Vec<String> {
        let prefix = format!("{}/", path);
        self.nodes.keys().filter(|p| p.starts_with(&prefix)).cloned().collect()
    }

    fn walk(&mut self, root: &str) -> Vec<WalkItem<String>> {
        self.walks += 1;
        let mut items = Vec::new();
        let mut paths = vec![root.to_string()];
        paths.extend(self.below(root));
        for path in paths {
            if let Some(node) = self.nodes.get(&path) {
                let depth = path[root.len()..].matches('/').count() as u64;
                items.push(WalkItem::Found(Entry { path, kind: node.kind, depth }));
            }
        }
        if self.spoiled_walk == Some(self.walks) {
            items.push(WalkItem::Unreadable);
        }
        items
    }

    fn take(&mut self, path: &str) -> Result<(), String> {
        match self.nodes.get(path) {
            None => Err("not found".to_string()),
            Some(node) if node.read_only || node.pinned => Err("denied".to_string()),
            Some(_) => {
                self.nodes.remove(path);
                self.changes += 1;
                Ok(())
            }
        }
    }

    fn unlink(&mut self, path: &str) -> Result<(), String> {
        match self.probe(path) {
            Some(EntryKind::Directory) => Err("is a directory".to_string()),
            _ => self.take(path),
        }
    }

    fn remove_tree(&mut self, path: &str) -> Result<(), String> {
        if self.probe(path).is_none() {
            return Err("not found".to_string());
        }
        let mut below = self.below(path);
        below.sort_by_key(|p| std::cmp::Reverse(p.matches('/').count()));
        let mut first_error = None;
        for inner in below {
            if !self.below(&inner).is_empty() {
                continue;
            }
            if let Err(error) = self.take(&inner) {
                first_error.get_or_insert(error);
            }
        }
        match first_error {
            Some(error) => Err(error),
            None => self.take(path),
        }
    }

    fn clear_read_only(&mut self, path: &str) -> Result<(), String> {
        match self.nodes.get_mut(path) {
            None => Err("not found".to_string()),
            Some(node) => {
                if node.read_only {
                    node.read_only = false;
                    self.changes += 1;
                }
                Ok(())
            }
        }
    }
}

/// What one deletion did.
#[derive(Debug)]
struct Report {
    outcome: Outcome<String>,
    asked: Vec<&'static str>,
    ticks: u64,
}

fn name_of(action: &Action<String, String>) -> &'static str {
    match action {
        Action::ProbeRoot => "probe",
        Action::RemoveFile => "remove file",
        Action::Scan => "scan",
        Action::Sweep(_) => "sweep",
        Action::Survey => "survey",
        Action::ClearReadOnly(_) => "clear",
        Action::RemoveTree => "remove tree",
        Action::Finish(_) => "finish",
    }
}

/// Drives the engine over a disk in memory, one removal after the other.
fn delete(disk: &mut Disk, root: &str) -> Report {
    let mut engine = Engine::new();
    let mut asked = Vec::new();
    let mut ticks = 0;
    let mut event: Event<String, String> = Event::Begin;
    loop {
        let action = engine.step(event).expect("the event answers the pending action");
        asked.push(name_of(&action));
        event = match action {
            Action::ProbeRoot => Event::RootProbed(disk.probe(root)),
            Action::RemoveFile => {
                Event::Removed(disk.clear_read_only(root).and_then(|_| disk.unlink(root)))
            }
            Action::Scan => Event::Scanned(disk.walk(root)),
            Action::Sweep(plan) => {
                let mut progress = Progress::for_plan(&plan);
                for bucket in plan.into_buckets() {
                    for entry in bucket.into_entries() {
                        let _ = match entry.kind.removal() {
                            Removal::Unlink => disk.unlink(&entry.path),
                            Removal::Recursive => disk.remove_tree(&entry.path),
                        };
                        progress.tick();
                    }
                }
                assert!(progress.is_complete());
                ticks = progress.processed();
                Event::Swept { root_remains: disk.probe(root).is_some() }
            }
            Action::Survey => Event::Surveyed(disk.walk(root)),
            Action::ClearReadOnly(paths) => {
                for path in paths {
                    let _ = disk.clear_read_only(&path);
                }
                Event::Cleared
            }
            Action::RemoveTree => Event::Removed(disk.remove_tree(root)),
            Action::Finish(outcome) => return Report { outcome, asked, ticks },
        };
    }
}

fn nothing_left(disk: &Disk, root: &str) -> bool {
    disk.probe(root).is_none() && disk.below(root).is_empty()
}

#[test]
fn empty_directory_is_removed_and_counted_once() {
    let mut disk = Disk::default().dir("root");
    let report = delete(&mut disk, "root");
    assert_eq!(report.outcome, Outcome::Success);
    assert!(nothing_left(&disk, "root"));
    assert_eq!(report.ticks, 1);
    assert_eq!(report.asked, vec!["probe", "scan", "sweep", "finish"]);
}

#[test]
fn directory_with_three_files_is_removed() {
    let mut disk = Disk::default().dir("root").file("root/a").file("root/b").file("root/c");
    let report = delete(&mut disk, "root");
    assert_eq!(report.outcome, Outcome::Success);
    assert!(nothing_left(&disk, "root"));
    assert_eq!(report.ticks, 4);
    assert_eq!(report.asked, vec!["probe", "scan", "sweep", "finish"]);
}

#[test]
fn read_only_chain_is_removed_after_repair() {
    let mut disk = Disk::default()
        .dir("root")
        .dir("root/sub")
        .file("root/sub/file")
        .read_only("root")
        .read_only("root/sub")
        .read_only("root/sub/file");
    let report = delete(&mut disk, "root");
    assert_eq!(report.outcome, Outcome::Success);
    assert!(nothing_left(&disk, "root"));
    assert_eq!(report.ticks, 3);
    assert_eq!(
        report.asked,
        vec!["probe", "scan", "sweep", "survey", "clear", "remove tree", "finish"]
    );
}

#[test]
fn missing_root_is_not_found_and_nothing_changes() {
    let mut disk = Disk::default().dir("other").file("other/kept");
    let before = disk.nodes.len();
    let report = delete(&mut disk, "root");
    assert_eq!(report.outcome, Outcome::NotFound);
    assert_eq!(report.ticks, 0);
    assert_eq!(disk.changes, 0);
    assert_eq!(disk.nodes.len(), before);
    assert_eq!(report.asked, vec!["probe", "finish"]);
}

#[test]
fn deleting_the_missing_root_again_is_not_found_again() {
    let mut disk = Disk::default().dir("root").file("root/a");
    assert_eq!(delete(&mut disk, "root").outcome, Outcome::Success);
    let changes = disk.changes;
    for _ in 0..3 {
        let again = delete(&mut disk, "root");
        assert_eq!(again.outcome, Outcome::NotFound);
        assert_eq!(again.ticks, 0);
    }
    assert_eq!(disk.changes, changes);
}

#[test]
fn single_file_is_removed_without_a_scan() {
    let mut disk = Disk::default().file("note.txt");
    let report = delete(&mut disk, "note.txt");
    assert_eq!(report.outcome, Outcome::Success);
    assert!(nothing_left(&disk, "note.txt"));
    assert_eq!(disk.walks, 0);
    assert_eq!(report.ticks, 0);
    assert_eq!(report.asked, vec!["probe", "remove file", "finish"]);
}

#[test]
fn read_only_single_file_is_cleared_and_removed() {
    let mut disk = Disk::default().file("note.txt").read_only("note.txt");
    assert_eq!(disk.clone().unlink("note.txt"), Err("denied".to_string()));
    let report = delete(&mut disk, "note.txt");
    assert_eq!(report.outcome, Outcome::Success);
    assert!(nothing_left(&disk, "note.txt"));
    assert_eq!(disk.walks, 0);
    assert_eq!(report.asked, vec!["probe", "remove file", "finish"]);
}

#[test]
fn single_file_that_resists_is_reported_with_its_error() {
    let mut disk = Disk::default().file("note.txt").pinned("note.txt");
    let report = delete(&mut disk, "note.txt");
    assert_eq!(report.outcome, Outcome::PartialFailure(Failure::File("denied".to_string())));
    assert!(disk.probe("note.txt").is_some());
}

#[test]
fn repair_succeeds_where_a_single_pass_fails() {
    let tree = Disk::default()
        .dir("root")
        .dir("root/a")
        .file("root/a/locked")
        .file("root/a/free")
        .file("root/top")
        .read_only("root/a/locked");
    let mut naive = tree.clone();
    assert!(naive.remove_tree("root").is_err());
    assert!(naive.probe("root").is_some());
    let mut disk = tree;
    let report = delete(&mut disk, "root");
    assert_eq!(report.outcome, Outcome::Success);
    assert!(nothing_left(&disk, "root"));
    assert!(report.asked.contains(&"clear"));
    assert_eq!(report.ticks, 5);
}

#[test]
fn success_leaves_nothing_below_the_root() {
    let mut disk = Disk::default()
        .dir("keep")
        .file("keep/me")
        .dir("root")
        .dir("root/a")
        .dir("root/a/b")
        .dir("root/a/b/c")
        .file("root/a/b/c/deep")
        .file("root/a/x")
        .dir("root/empty")
        .file("root/y")
        .read_only("root/a/b");
    let report = delete(&mut disk, "root");
    assert_eq!(report.outcome, Outcome::Success);
    assert!(nothing_left(&disk, "root"));
    assert_eq!(report.ticks, 8);
    assert!(disk.probe("keep").is_some());
    assert!(disk.probe("keep/me").is_some());
}

#[test]
fn progress_ends_at_the_number_of_entries_scanned() {
    let mut disk = Disk::default().dir("root");
    for i in 0..25 {
        disk = disk.file(&format!("root/f{}", i));
    }
    disk = disk.dir("root/d").file("root/d/g");
    let scanned = disk.clone().walk("root").len() as u64;
    let report = delete(&mut disk, "root");
    assert_eq!(report.outcome, Outcome::Success);
    assert_eq!(scanned, 28);
    assert_eq!(report.ticks, scanned);
}

#[test]
fn root_that_resists_the_retry_is_a_residual_failure() {
    let mut disk = Disk::default().dir("root").file("root/held").file("root/free").pinned("root/held");
    let report = delete(&mut disk, "root");
    assert_eq!(report.outcome, Outcome::PartialFailure(Failure::Residual("denied".to_string())));
    assert!(disk.probe("root").is_some());
    assert!(disk.probe("root/held").is_some());
    assert!(disk.probe("root/free").is_none());
    assert_eq!(
        report.asked,
        vec!["probe", "scan", "sweep", "survey", "clear", "remove tree", "finish"]
    );
}

#[test]
fn spoiled_scan_removes_nothing() {
    let mut disk = Disk::default().dir("root").file("root/a");
    disk.spoiled_walk = Some(1);
    let report = delete(&mut disk, "root");
    assert_eq!(report.outcome, Outcome::PartialFailure(Failure::Scan));
    assert_eq!(disk.changes, 0);
    assert_eq!(report.ticks, 0);
    assert!(disk.probe("root/a").is_some());
    assert_eq!(report.asked, vec!["probe", "scan", "finish"]);
}

#[test]
fn spoiled_survey_clears_nothing_and_the_retry_decides() {
    let mut disk = Disk::default().dir("root").file("root/locked").read_only("root/locked");
    disk.spoiled_walk = Some(2);
    let report = delete(&mut disk, "root");
    assert_eq!(report.outcome, Outcome::PartialFailure(Failure::Residual("denied".to_string())));
    assert_eq!(report.asked, vec!["probe", "scan", "sweep", "survey", "remove tree", "finish"]);
    assert!(disk.nodes["root/locked"].read_only);
}
