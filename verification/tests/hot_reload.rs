//! Watching assets for changes.

use astraglyph::assets::hot_reload::{
    fingerprint, AssetWatcher, ReloadEvent, DEFAULT_POLL_INTERVAL,
};
use astraglyph::assets::path::AssetPath;
use std::collections::HashMap;
use std::path::Path;

/// One millisecond of the watcher's clock.
const MILLIS: u128 = 1_000_000;

/// What files hold.
#[derive(Default)]
struct Disk {
    files: HashMap<String, Vec<u8>>,
}

impl Disk {
    fn write(&mut self, path: &AssetPath, contents: &[u8]) {
        self.files.insert(path.spelling().clone(), contents.to_vec());
    }

    fn remove(&mut self, path: &AssetPath) {
        self.files.remove(path.spelling());
    }

    fn read(&self, path: &AssetPath) -> Option<Vec<u8>> {
        self.files.get(path.spelling()).cloned()
    }

    fn read_watched(&self, watcher: &AssetWatcher) -> Vec<Option<Vec<u8>>> {
        (0..watcher.watched_count()).map(|i| self.read(watcher.watched_path(i))).collect()
    }
}

fn at(spelling: &str) -> AssetPath {
    AssetPath::slashed(spelling)
}

fn poll(watcher: &mut AssetWatcher, disk: &Disk, now: u128) -> Vec<ReloadEvent> {
    let contents = disk.read_watched(watcher);
    watcher.poll(now, &contents)
}

fn poll_now(watcher: &mut AssetWatcher, disk: &Disk, now: u128) -> Vec<ReloadEvent> {
    let contents = disk.read_watched(watcher);
    watcher.poll_now(now, &contents)
}

/// A watcher with no interval, so tests exercise detection rather than timing.
fn immediate() -> AssetWatcher {
    AssetWatcher::new(0)
}

#[test]
fn a_changed_file_is_reported() {
    let mut disk = Disk::default();
    let path = at("a.txt");
    disk.write(&path, b"one");

    let mut watcher = immediate();
    watcher.watch(&path, disk.read(&path));
    assert!(
        poll(&mut watcher, &disk, 0).is_empty(),
        "an unchanged file must not be reported"
    );

    disk.write(&path, b"two");
    assert_eq!(
        poll(&mut watcher, &disk, 0),
        vec![ReloadEvent::Changed(path.clone())]
    );
}

/// Registering a file must not report it: the caller has just loaded it, and an
/// event here would cause a redundant reload on the first poll of every run.
#[test]
fn registering_a_file_does_not_report_it() {
    let mut disk = Disk::default();
    let path = at("a.txt");
    disk.write(&path, b"content");
    let mut watcher = immediate();
    watcher.watch(&path, disk.read(&path));
    assert!(poll(&mut watcher, &disk, 0).is_empty());
    assert_eq!(watcher.events(), 0);
}

/// Contents decide, not timestamps. An edit that preserves the size and lands in
/// the same filesystem tick is exactly what a texture tweak looks like.
#[test]
fn a_same_size_change_within_one_timestamp_tick_is_detected() {
    let mut disk = Disk::default();
    let path = at("a.bin");
    disk.write(&path, b"AAAA");
    let mut watcher = immediate();
    watcher.watch(&path, disk.read(&path));

    // Eight writes back to back, each different but all four bytes, no sleeps.
    for i in 0..8u8 {
        disk.write(&path, &[b'B' + i, b'B', b'B', b'B']);
        assert_eq!(
            poll(&mut watcher, &disk, 0).len(),
            1,
            "write {i} was missed, so the timestamp is being trusted"
        );
    }
}

/// A rewrite of identical bytes must not reload — that is what an editor's
/// "save all" does to every open file, and reloading each would be pure cost.
#[test]
fn an_identical_rewrite_is_not_a_change() {
    let mut disk = Disk::default();
    let path = at("a.txt");
    disk.write(&path, b"same");
    let mut watcher = immediate();
    watcher.watch(&path, disk.read(&path));

    disk.write(&path, b"same");
    assert!(
        poll(&mut watcher, &disk, 0).is_empty(),
        "identical contents must not count as a change"
    );
}

/// A deletion is reported rather than ignored, so a caller can keep the last good
/// version and say why it is stale.
#[test]
fn a_removal_and_a_reappearance_are_both_reported() {
    let mut disk = Disk::default();
    let path = at("a.txt");
    disk.write(&path, b"here");
    let mut watcher = immediate();
    watcher.watch(&path, disk.read(&path));

    disk.remove(&path);
    assert_eq!(
        poll(&mut watcher, &disk, 0),
        vec![ReloadEvent::Removed(path.clone())]
    );
    // Still gone: reported once, not every poll.
    assert!(poll(&mut watcher, &disk, 0).is_empty());

    disk.write(&path, b"back");
    assert_eq!(
        poll(&mut watcher, &disk, 0),
        vec![ReloadEvent::Appeared(path.clone())]
    );
}

/// Watching a path that does not exist is harmless, and must start working when a
/// file appears there — the demo ships without some assets.
#[test]
fn watching_a_missing_path_is_harmless_and_picks_it_up_later() {
    let mut disk = Disk::default();
    let path = at("later.txt");
    let mut watcher = immediate();
    watcher.watch(&path, disk.read(&path));
    assert!(poll(&mut watcher, &disk, 0).is_empty());

    disk.write(&path, b"now here");
    assert_eq!(
        poll(&mut watcher, &disk, 0),
        vec![ReloadEvent::Appeared(path.clone())]
    );
}

/// The interval is what keeps asset watching off the hot path: at 1300 FPS,
/// hashing every texture per frame would cost more than the reload saves.
#[test]
fn the_poll_interval_is_respected() {
    let mut disk = Disk::default();
    let path = at("a.txt");
    disk.write(&path, b"one");

    let mut watcher = AssetWatcher::new(500 * MILLIS);
    watcher.watch(&path, disk.read(&path));
    let start: u128 = 7;
    // First poll always runs.
    assert!(poll(&mut watcher, &disk, start).is_empty());
    assert_eq!(watcher.disk_polls(), 1);

    disk.write(&path, b"two");
    // Too soon: no disk access, no event, even though the file did change.
    assert!(poll(&mut watcher, &disk, start + 100 * MILLIS).is_empty());
    assert_eq!(
        watcher.disk_polls(),
        1,
        "an early poll must not touch the disk"
    );

    // Past the interval.
    let events = poll(&mut watcher, &disk, start + 600 * MILLIS);
    assert_eq!(events.len(), 1);
    assert_eq!(watcher.disk_polls(), 2);
}

/// A manual reload has to work regardless of when the last poll was.
#[test]
fn poll_now_ignores_the_interval() {
    let mut disk = Disk::default();
    let path = at("a.txt");
    disk.write(&path, b"one");
    let mut watcher = AssetWatcher::new(3_600_000 * MILLIS);
    watcher.watch(&path, disk.read(&path));
    let start: u128 = 7;
    poll(&mut watcher, &disk, start);

    disk.write(&path, b"two");
    assert!(
        poll(&mut watcher, &disk, start).is_empty(),
        "an hour-long interval should suppress the automatic poll"
    );
    assert_eq!(poll_now(&mut watcher, &disk, start).len(), 1);
}

/// Events come out in registration order. A caller applying reloads in a varying
/// order is a reproducibility problem waiting to happen.
#[test]
fn events_are_reported_in_registration_order() {
    let mut disk = Disk::default();
    let paths: Vec<AssetPath> = (0..5).map(|i| at(&format!("f{i}.txt"))).collect();
    for path in &paths {
        disk.write(&path, b"one");
    }
    let mut watcher = immediate();
    for path in &paths {
        watcher.watch(&path, disk.read(&path));
    }
    for path in &paths {
        disk.write(&path, b"two");
    }
    let reported: Vec<AssetPath> = poll(&mut watcher, &disk, 0)
        .into_iter()
        .map(|e| e.path().clone())
        .collect();
    assert_eq!(reported, paths);
}

#[test]
fn watching_the_same_path_twice_registers_it_once() {
    let mut disk = Disk::default();
    let path = at("a.txt");
    disk.write(&path, b"x");
    let mut watcher = immediate();
    watcher.watch(&path, disk.read(&path));
    watcher.watch(&path, disk.read(&path));
    assert_eq!(watcher.watched_count(), 1);

    disk.write(&path, b"y");
    assert_eq!(
        poll(&mut watcher, &disk, 0).len(),
        1,
        "a duplicated registration must not double the events"
    );
}

#[test]
fn unwatching_stops_the_reports() {
    let mut disk = Disk::default();
    let path = at("a.txt");
    disk.write(&path, b"one");
    let mut watcher = immediate();
    watcher.watch(&path, disk.read(&path));
    watcher.unwatch(&path);
    assert_eq!(watcher.watched_count(), 0);

    disk.write(&path, b"two");
    assert!(poll(&mut watcher, &disk, 0).is_empty());
}

#[test]
fn an_empty_watcher_polls_without_incident() {
    let disk = Disk::default();
    let mut watcher = immediate();
    assert!(poll(&mut watcher, &disk, 0).is_empty());
    assert_eq!(watcher.watched_count(), 0);
    assert_eq!(watcher.events(), 0);
}

/// Length alone is not enough, and neither is a hash alone in principle — the
/// pair is what makes a same-length edit detectable.
#[test]
fn the_fingerprint_distinguishes_same_length_content() {
    assert_ne!(fingerprint(b"AAAA"), fingerprint(b"AAAB"));
    assert_ne!(fingerprint(b"AB"), fingerprint(b"BA"));
    assert_eq!(fingerprint(b"same"), fingerprint(b"same"));
    assert_ne!(fingerprint(b""), fingerprint(b"a"));
}

#[test]
fn the_default_interval_is_imperceptible_but_not_per_frame() {
    // Fast enough that a human saving a file does not notice the lag, slow enough
    // that it is nowhere near the frame rate.
    assert!(DEFAULT_POLL_INTERVAL <= 500 * MILLIS);
    assert!(DEFAULT_POLL_INTERVAL >= 50 * MILLIS);
}

/// Spellings of one path name one entry, which keeps the first of them.
#[test]
fn a_path_is_watched_once_however_it_is_spelled() {
    let mut disk = Disk::default();
    disk.write(&at("a/b.txt"), b"one");
    let mut watcher = immediate();
    watcher.watch(&at("a/b.txt"), disk.read(&at("a/b.txt")));
    for same in ["a//b.txt", "a/b.txt/", "a/./b.txt", "a/b.txt/."] {
        watcher.watch(&at(same), None);
        assert_eq!(watcher.watched_count(), 1, "{same}");
    }
    disk.write(&at("a/b.txt"), b"two");
    let events = poll(&mut watcher, &disk, 0);
    assert_eq!(events, vec![ReloadEvent::Changed(at("a//b.txt"))]);
    assert_eq!(events[0].path().spelling(), "a/b.txt");
    for other in ["./a/b.txt", "/a/b.txt", "a/../a/b.txt", "a/B.txt"] {
        watcher.watch(&at(other), None);
    }
    assert_eq!(watcher.watched_count(), 5);
    watcher.unwatch(&at("/.//a/b.txt"));
    watcher.unwatch(&at("././a/b.txt"));
    watcher.unwatch(&at("a///b.txt"));
    assert_eq!(watcher.watched_count(), 2);
    assert_eq!(watcher.watched_path(0).spelling(), "a/../a/b.txt");
}

/// Spellings that the standard library takes for one path are one path here.
#[test]
fn paths_are_compared_by_their_components() {
    let spellings = [
        "", ".", "./", "..", "../.", "/", "//.", "/..", "a", "a/", "./a", "././a", "/a", "/./a", "a/b",
        "a//b/", "a/./b", "a/b/.", "a/b/c", "a/c", "a/../b", "A/b", ".a", "a.", "a/.b",
    ];
    for a in spellings {
        for b in spellings {
            assert_eq!(at(a) == at(b), Path::new(a) == Path::new(b), "{a:?} and {b:?}");
            assert_eq!(at(a).same(&at(b)), at(a) == at(b));
        }
    }
}

/// Where a system has other rules, it says what a spelling falls into.
#[test]
fn a_system_may_take_paths_apart_itself() {
    let parts = || vec!["a".to_string(), "b".to_string()];
    let one = AssetPath::from_components("c:\\a\\b", "C:", true, parts());
    let other = AssetPath::from_components("C:/a/b", "C:", true, parts());
    assert_eq!(one, other);
    assert_ne!(one, AssetPath::from_components("D:/a/b", "D:", true, parts()));
    assert_ne!(one, AssetPath::from_components("C:a/b", "C:", false, parts()));
    assert_eq!(AssetPath::from_components("a\\b", "", false, parts()), at("a/b"));
    let copy = one.clone();
    assert_eq!((copy.spelling(), &copy), (one.spelling(), &one));
    let mut watcher = immediate();
    watcher.watch(&one, None);
    watcher.watch(&other, None);
    assert_eq!(watcher.watched_count(), 1);
}

/// After any calls the watcher has counted what it returned, knows how many
/// paths it watches, and is due an interval after the last poll that read.
#[test]
fn a_watcher_adds_up_over_many_calls() {
    let mut disk = Disk::default();
    disk.write(&at("a"), b"1");
    let mut watcher = AssetWatcher::new(100);
    assert!(watcher.is_due(0));
    watcher.watch(&at("a"), disk.read(&at("a")));
    watcher.watch(&at("missing"), None);
    assert_eq!(watcher.watched_count(), 2);
    let mut told = poll(&mut watcher, &disk, 50).len();
    disk.write(&at("a"), b"2");
    disk.write(&at("missing"), b"3");
    assert!(!watcher.is_due(149) && watcher.is_due(150) && !watcher.is_due(10));
    told += poll(&mut watcher, &disk, 120).len();
    assert_eq!(told, 0, "a poll that comes too early reads nothing");
    assert!(watcher.is_due(150), "and does not put the next one off");
    told += poll(&mut watcher, &disk, 150).len();
    assert_eq!(told, 2);
    disk.remove(&at("a"));
    told += poll_now(&mut watcher, &disk, 160).len();
    assert!(!watcher.is_due(259) && watcher.is_due(260));
    watcher.unwatch(&at("missing"));
    assert_eq!(watcher.watched_count(), 1);
    assert_eq!((watcher.events(), watcher.disk_polls()), (told as u64, 3));
    assert_eq!(told, 3);
}
