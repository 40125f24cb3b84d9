//! Asset hot-reload: which of the watched files changed.
//!
//! Contents decide, not timestamps: two writes within one tick of the file
//! system's clock must both be seen. The watcher keeps a fingerprint of what a
//! file held when it was last read; reading it is the caller's part, and so is
//! the clock. Times are nanoseconds from any fixed moment. A path is watched
//! under the spelling it was first registered with; other spellings of it name
//! the same entry.

use vstd::arithmetic::div_mod::lemma_mul_mod_noop_left;
use vstd::arithmetic::div_mod::lemma_small_mod;
use vstd::prelude::*;
use crate::assets::path::AssetPath;
use crate::assets::path::PathKey;
use crate::assets::path::PathView;

verus! {

/// What changed.
#[derive(Clone, Debug, PartialEq, Eq)]
pub enum ReloadEvent {
    /// The file's contents changed.
    Changed(AssetPath),
    /// The file existed and now does not.
    Removed(AssetPath),
    /// A watched path that did not exist now does.
    Appeared(AssetPath),
}

/// The ways in which a watched file changes.
#[derive(Clone, Copy, Debug, PartialEq, Eq, Structural)]
pub enum Change {
    Changed,
    Removed,
    Appeared,
}

impl View for ReloadEvent {
    type V = (Change, PathView);

    open spec fn view(&self) -> (Change, PathView) {
        match *self {
            ReloadEvent::Changed(p) => (Change::Changed, p@),
            ReloadEvent::Removed(p) => (Change::Removed, p@),
            ReloadEvent::Appeared(p) => (Change::Appeared, p@),
        }
    }
}

impl ReloadEvent {
    /// The path this event concerns.
    pub fn path(&self) -> (r: &AssetPath)
        ensures
            r@ == self@.1,
    {
        match self {
            ReloadEvent::Changed(p) => p,
            ReloadEvent::Removed(p) => p,
            ReloadEvent::Appeared(p) => p,
        }
    }
}

/// How often the watcher hits the disk by default: every 250 milliseconds.
pub const DEFAULT_POLL_INTERVAL: u128 = 250_000_000;

// --- fingerprints ------------------------------------------------------------

/// Fingerprint of a file's contents: its length and an FNV-1a hash.
#[derive(Clone, Copy, Debug, PartialEq, Eq, Structural)]
pub struct Fingerprint {
    pub length: u64,
    pub hash: u64,
}

/// Where the hash starts.
pub const FNV_OFFSET: u64 = 0xcbf2_9ce4_8422_2325;

/// What each step of the hash multiplies by.
pub const FNV_PRIME: u64 = 0x100_0000_01b3;

/// One step of the hash.
pub open spec fn fnv_step(hash: u64, byte: u8) -> u64 {
    (hash ^ (byte as u64)).wrapping_mul(FNV_PRIME)
}

/// The hash of a text of bytes.
pub open spec fn fnv(bytes: Seq<u8>) -> u64
    decreases bytes.len(),
{
    if bytes.len() == 0 {
        FNV_OFFSET
    } else {
        fnv_step(fnv(bytes.drop_last()), bytes.last())
    }
}

/// The fingerprint of contents.
pub open spec fn print_of(bytes: Seq<u8>) -> Fingerprint {
    Fingerprint { length: bytes.len() as u64, hash: fnv(bytes) }
}

/// The fingerprint of contents.
pub fn fingerprint(bytes: &[u8]) -> (r: Fingerprint)
    ensures
        r == print_of(bytes@),
{
    let mut hash: u64 = FNV_OFFSET;
    let mut i: usize = 0;
    assert(bytes.len() == bytes@.len());
    while i < bytes.len()
        invariant
            i <= bytes@.len(),
            bytes@.len() <= usize::MAX,
            hash == fnv(bytes@.take(i as int)),
        decreases bytes@.len() - i,
    {
        assert(bytes@.take(i + 1).drop_last() =~= bytes@.take(i as int));
        hash = (hash ^ (bytes[i] as u64)).wrapping_mul(FNV_PRIME);
        i += 1;
    }
    assert(bytes@.take(i as int) =~= bytes@);
    Fingerprint { length: bytes.len() as u64, hash }
}

// --- the watcher -------------------------------------------------------------

/// A watched path and what was last seen there.
#[derive(Debug)]
pub struct Watched {
    pub path: AssetPath,
    /// `None` where the file was absent.
    pub seen: Option<Fingerprint>,
}

/// What a watched entry is: the path, and the last fingerprint.
pub type Entry = (PathView, Option<Fingerprint>);

impl View for Watched {
    type V = Entry;

    open spec fn view(&self) -> Entry {
        (self.path@, self.seen)
    }
}

/// The entries of a list of watched paths.
pub open spec fn entries_of(list: Seq<Watched>) -> Seq<Entry> {
    list.map_values(|w: Watched| w@)
}

/// The views of a list of events.
pub open spec fn events_of(list: Seq<ReloadEvent>) -> Seq<(Change, PathView)> {
    list.map_values(|e: ReloadEvent| e@)
}

/// The fingerprint of what was read, if there was a file.
pub open spec fn read_print(contents: Option<Vec<u8>>) -> Option<Fingerprint> {
    match contents {
        Some(bytes) => Some(print_of(bytes@)),
        None => None,
    }
}

/// What the last and the current fingerprint of a path tell.
pub open spec fn change_of(last: Option<Fingerprint>, now: Option<Fingerprint>) -> Option<Change> {
    match (last, now) {
        (Some(a), Some(b)) => if a == b {
            None
        } else {
            Some(Change::Changed)
        },
        (None, None) => None,
        (Some(_), None) => Some(Change::Removed),
        (None, Some(_)) => Some(Change::Appeared),
    }
}

/// The events of the first `n` entries, in their order.
pub open spec fn reports(
    entries: Seq<Entry>,
    contents: Seq<Option<Vec<u8>>>,
    n: int,
) -> Seq<(Change, PathView)>
    decreases n,
{
    if n <= 0 {
        seq![]
    } else {
        let before = reports(entries, contents, n - 1);
        match change_of(entries[n - 1].1, read_print(contents[n - 1])) {
            Some(change) => before.push((change, entries[n - 1].0)),
            None => before,
        }
    }
}

/// The entries after all paths were read again.
pub open spec fn refreshed(entries: Seq<Entry>, contents: Seq<Option<Vec<u8>>>) -> Seq<Entry> {
    Seq::new(entries.len(), |i: int| (entries[i].0, read_print(contents[i])))
}

/// No path is listed twice.
pub open spec fn paths_distinct(entries: Seq<Entry>) -> bool {
    forall|i: int, j: int|
        0 <= i < j < entries.len() ==> (#[trigger] entries[i]).0.key
            != (#[trigger] entries[j]).0.key
}

/// The path is listed, under whatever spelling.
pub open spec fn lists(entries: Seq<Entry>, path: PathView) -> bool {
    exists|i: int| 0 <= i < entries.len() && (#[trigger] entries[i]).0.key == path.key
}

/// The entries but for those of a path.
pub open spec fn without(entries: Seq<Entry>, path: PathView) -> Seq<Entry> {
    entries.filter(|e: Entry| e.0.key != path.key)
}

/// What a watcher is.
pub ghost struct WatchState {
    /// In the order of registration.
    pub entries: Seq<Entry>,
    pub interval: u128,
    pub last_poll: Option<u128>,
    pub disk_polls: u64,
    pub events: u64,
}

/// A watcher on which nothing has been called.
pub open spec fn unused(interval: u128) -> WatchState {
    WatchState { entries: seq![], interval, last_poll: None, disk_polls: 0, events: 0 }
}

impl WatchState {
    /// Enough time has passed since the last poll.
    pub open spec fn due(self, now: u128) -> bool {
        match self.last_poll {
            None => true,
            Some(last) => (if now < last {
                0
            } else {
                now - last
            }) >= self.interval,
        }
    }

    /// The watcher once a path is watched. One that is watched already stays as
    /// it is.
    pub open spec fn watching(self, path: PathView, contents: Option<Vec<u8>>) -> WatchState {
        if lists(self.entries, path) {
            self
        } else {
            WatchState { entries: self.entries.push((path, read_print(contents))), ..self }
        }
    }

    /// The watcher once a path is no longer watched.
    pub open spec fn unwatching(self, path: PathView) -> WatchState {
        WatchState { entries: without(self.entries, path), ..self }
    }

    /// The watcher after a poll that read the files.
    pub open spec fn polled(self, now: u128, contents: Seq<Option<Vec<u8>>>) -> WatchState {
        let told = reports(self.entries, contents, self.entries.len() as int);
        WatchState {
            entries: refreshed(self.entries, contents),
            interval: self.interval,
            last_poll: Some(now),
            disk_polls: (self.disk_polls + 1) as u64,
            events: (self.events + told.len()) as u64,
        }
    }
}

/// A watcher over a set of asset paths.
#[derive(Debug)]
pub struct AssetWatcher {
    watched: Vec<Watched>,
    interval: u128,
    last_poll: Option<u128>,
    disk_polls: u64,
    events: u64,
}

impl View for AssetWatcher {
    type V = WatchState;

    closed spec fn view(&self) -> WatchState {
        WatchState {
            entries: entries_of(self.watched@),
            interval: self.interval,
            last_poll: self.last_poll,
            disk_polls: self.disk_polls,
            events: self.events,
        }
    }
}

impl Default for AssetWatcher {
    fn default() -> (r: Self)
        ensures
            r.wf(),
            r@ == unused(DEFAULT_POLL_INTERVAL),
    {
        AssetWatcher::new(DEFAULT_POLL_INTERVAL)
    }
}

impl AssetWatcher {
    /// Every path is watched once.
    pub open spec fn wf(&self) -> bool {
        paths_distinct(self@.entries)
    }

    /// A watcher of no paths.
    pub fn new(interval: u128) -> (r: Self)
        ensures
            r.wf(),
            r@ == unused(interval),
    {
        let r = AssetWatcher {
            watched: Vec::new(),
            interval,
            last_poll: None,
            disk_polls: 0,
            events: 0,
        };
        assert(r@.entries =~= seq![]);
        r
    }

    /// Where a path stands in the list.
    fn find(&self, path: &AssetPath) -> (r: Option<usize>)
        ensures
            r matches Some(i) ==> i < self.watched@.len() && self@.entries[i as int].0.key
                == path@.key,
            r is None ==> !lists(self@.entries, path@),
    {
        let mut i: usize = 0;
        while i < self.watched.len()
            invariant
                i <= self.watched@.len(),
                forall|k: int|
                    0 <= k < i ==> (#[trigger] self@.entries[k]).0.key != path@.key,
            decreases self.watched@.len() - i,
        {
            assert(self@.entries[i as int] == self.watched@[i as int]@);
            if self.watched[i].path.same(path) {
                return Some(i);
            }
            i += 1;
        }
        None
    }

    /// Start watching a path, recording what it holds now without an event. A
    /// path that is watched already stays as it is.
    pub fn watch(&mut self, path: &AssetPath, contents: Option<Vec<u8>>)
        requires
            old(self).wf(),
        ensures
            final(self).wf(),
            final(self)@ == old(self)@.watching(path@, contents),
            lists(final(self)@.entries, path@),
    {
        if self.find(path).is_some() {
            return;
        }
        let ghost before = self@.entries;
        let seen: Option<Fingerprint> = match contents {
            Some(bytes) => Some(fingerprint(bytes.as_slice())),
            None => None,
        };
        self.watched.push(Watched { path: path.clone(), seen });
        assert(self@.entries =~= before.push((path@, read_print(contents))));
        assert(self@.entries[before.len() as int].0 == path@);
    }

    /// Stop watching a path.
    pub fn unwatch(&mut self, path: &AssetPath)
        requires
            old(self).wf(),
        ensures
            final(self).wf(),
            final(self)@ == old(self)@.unwatching(path@),
            !lists(final(self)@.entries, path@),
    {
        let ghost before = self@.entries;
        match self.find(path) {
            Some(i) => {
                let ghost kept = before.remove(i as int);
                let _ = self.watched.remove(i);
                proof {
                    assert(self@.entries =~= kept);
                    lemma_remove_is_without(before, i as int, path@);
                }
            },
            None => {
                proof {
                    lemma_without_unlisted(before, path@);
                }
            },
        }
    }

    /// How many paths are watched.
    pub fn watched_count(&self) -> (r: usize)
        ensures
            r == self@.entries.len(),
    {
        self.watched.len()
    }

    /// The path at position `i` of the list.
    pub fn watched_path(&self, i: usize) -> (r: &AssetPath)
        requires
            i < self@.entries.len(),
        ensures
            r@ == self@.entries[i as int].0,
    {
        &self.watched[i].path
    }

    /// Polls that hit the disk.
    pub fn disk_polls(&self) -> (r: u64)
        ensures
            r == self@.disk_polls,
    {
        self.disk_polls
    }

    /// Events emitted so far.
    pub fn events(&self) -> (r: u64)
        ensures
            r == self@.events,
    {
        self.events
    }

    /// Whether enough time has passed to poll again.
    pub fn is_due(&self, now: u128) -> (r: bool)
        ensures
            r == self@.due(now),
    {
        match self.last_poll {
            None => true,
            Some(last) => {
                let elapsed: u128 = if now < last {
                    0
                } else {
                    now - last
                };
                elapsed >= self.interval
            },
        }
    }

    /// Compare every watched path with what is there now: `contents` holds what
    /// was read, in the order of the list, and nothing need be read where no
    /// poll is due.
    pub fn poll(&mut self, now: u128, contents: &Vec<Option<Vec<u8>>>) -> (r: Vec<ReloadEvent>)
        requires
            old(self).wf(),
            old(self)@.due(now) ==> contents@.len() == old(self)@.entries.len() && old(
                self,
            )@.disk_polls < u64::MAX && old(self)@.events + contents@.len() <= u64::MAX,
        ensures
            final(self).wf(),
            !old(self)@.due(now) ==> r@.len() == 0 && final(self)@ == old(self)@,
            old(self)@.due(now) ==> events_of(r@) == reports(
                old(self)@.entries,
                contents@,
                contents@.len() as int,
            ) && final(self)@ == old(self)@.polled(now, contents@),
    {
        let mut events: Vec<ReloadEvent> = Vec::new();
        if !self.is_due(now) {
            return events;
        }
        let ghost before = self@;
        self.last_poll = Some(now);
        self.disk_polls = self.disk_polls + 1;
        let mut i: usize = 0;
        assert(events_of(events@) =~= seq![]);
        assert(self.watched@.len() == before.entries.len());
        while i < self.watched.len()
            invariant
                before.entries.len() == contents@.len(),
                self.watched@.len() == contents@.len(),
                i <= contents@.len(),
                self.interval == before.interval,
                self.last_poll == Some(now),
                self.disk_polls == before.disk_polls + 1,
                self.events == before.events,
                events@.len() <= i,
                events_of(events@) == reports(before.entries, contents@, i as int),
                forall|k: int|
                    0 <= k < contents@.len() ==> #[trigger] self.watched@[k]@ == (if k < i {
                        refreshed(before.entries, contents@)[k]
                    } else {
                        before.entries[k]
                    }),
            decreases contents@.len() - i,
        {
            let ghost told = events_of(events@);
            let current: Option<Fingerprint> = match &contents[i] {
                Some(bytes) => Some(fingerprint(bytes.as_slice())),
                None => None,
            };
            assert(current == read_print(contents@[i as int]));
            assert(self.watched@[i as int]@ == before.entries[i as int]);
            let path: AssetPath = self.watched[i].path.clone();
            let event: Option<ReloadEvent> = match (self.watched[i].seen, current) {
                (Some(a), Some(b)) => if a == b {
                    None
                } else {
                    Some(ReloadEvent::Changed(path))
                },
                (None, None) => None,
                (Some(_), None) => Some(ReloadEvent::Removed(path)),
                (None, Some(_)) => Some(ReloadEvent::Appeared(path)),
            };
            self.watched[i].seen = current;
            match event {
                Some(event) => {
                    events.push(event);
                    assert(events_of(events@) =~= told.push(event@));
                },
                None => {},
            }
            i += 1;
        }
        self.events = self.events + events.len() as u64;
        proof {
            assert(entries_of(self.watched@) =~= refreshed(before.entries, contents@));
            assert(events_of(events@).len() == events@.len());
        }
        events
    }

    /// Poll immediately, ignoring the interval.
    pub fn poll_now(&mut self, now: u128, contents: &Vec<Option<Vec<u8>>>) -> (r: Vec<ReloadEvent>)
        requires
            old(self).wf(),
            contents@.len() == old(self)@.entries.len(),
            old(self)@.disk_polls < u64::MAX,
            old(self)@.events + contents@.len() <= u64::MAX,
        ensures
            final(self).wf(),
            events_of(r@) == reports(
                old(self)@.entries,
                contents@,
                contents@.len() as int,
            ),
            final(self)@ == old(self)@.polled(now, contents@),
    {
        self.last_poll = None;
        self.poll(now, contents)
    }
}

proof fn lemma_without_unlisted(entries: Seq<Entry>, path: PathView)
    requires
        !lists(entries, path),
    ensures
        without(entries, path) == entries,
    decreases entries.len(),
{
    reveal(Seq::filter);
    if entries.len() > 0 {
        let rest = entries.drop_last();
        assert forall|i: int| 0 <= i < rest.len() implies (#[trigger] rest[i]).0.key
            != path.key by {
            assert(rest[i] == entries[i]);
        }
        lemma_without_unlisted(rest, path);
        assert(entries[entries.len() - 1].0.key != path.key);
        assert(without(entries, path) =~= entries);
    } else {
        assert(without(entries, path) =~= entries);
    }
}

proof fn lemma_remove_is_without(entries: Seq<Entry>, i: int, path: PathView)
    requires
        paths_distinct(entries),
        0 <= i < entries.len(),
        entries[i].0.key == path.key,
    ensures
        without(entries, path) == entries.remove(i),
        paths_distinct(entries.remove(i)),
        !lists(entries.remove(i), path),
    decreases entries.len(),
{
    reveal(Seq::filter);
    let rest = entries.drop_last();
    let kept = entries.remove(i);
    assert forall|a: int, b: int| 0 <= a < b < kept.len() implies (#[trigger] kept[a]).0.key
        != (#[trigger] kept[b]).0.key by {
        let p = if a < i {
            a
        } else {
            a + 1
        };
        let q = if b < i {
            b
        } else {
            b + 1
        };
        assert(entries[p].0.key != entries[q].0.key);
    }
    assert forall|a: int| 0 <= a < kept.len() implies (#[trigger] kept[a]).0.key != path.key by {
        let p = if a < i {
            a
        } else {
            a + 1
        };
        if p < i {
            assert(entries[p].0.key != entries[i].0.key);
        } else {
            assert(entries[i].0.key != entries[p].0.key);
        }
    }
    if i == entries.len() - 1 {
        assert(kept =~= rest);
        lemma_without_unlisted(rest, path);
    } else {
        assert(entries[i].0.key != entries[entries.len() - 1].0.key);
        assert forall|a: int, b: int| 0 <= a < b < rest.len() implies (#[trigger] rest[a]).0.key
        != (#[trigger] rest[b]).0.key by {
            assert(entries[a].0.key != entries[b].0.key);
        }
        lemma_remove_is_without(rest, i, path);
        assert(kept =~= rest.remove(i).push(entries.last()));
    }
}

// --- laws --------------------------------------------------------------------

proof fn lemma_quiet(entries: Seq<Entry>, contents: Seq<Option<Vec<u8>>>, n: int)
    requires
        0 <= n <= entries.len(),
        entries.len() == contents.len(),
        forall|i: int|
            0 <= i < entries.len() ==> (#[trigger] entries[i]).1 == read_print(contents[i]),
    ensures
        reports(entries, contents, n).len() == 0,
    decreases n,
{
    if n > 0 {
        lemma_quiet(entries, contents, n - 1);
        assert(entries[n - 1].1 == read_print(contents[n - 1]));
    }
}

/// Files that hold what was last seen are not reported: neither files as they
/// were when they were registered, nor what a poll has already reported, nor
/// files rewritten with the same bytes. A removal is thus told once.
pub proof fn law_unchanged_files_are_not_reported(
    entries: Seq<Entry>,
    contents: Seq<Option<Vec<u8>>>,
)
    requires
        entries.len() == contents.len(),
    ensures
        (forall|i: int|
            0 <= i < entries.len() ==> (#[trigger] entries[i]).1 == read_print(contents[i]))
            ==> reports(entries, contents, entries.len() as int).len() == 0,
        reports(refreshed(entries, contents), contents, entries.len() as int).len() == 0,
{
    if forall|i: int|
        0 <= i < entries.len() ==> (#[trigger] entries[i]).1 == read_print(contents[i]) {
        lemma_quiet(entries, contents, entries.len() as int);
    }
    lemma_quiet(refreshed(entries, contents), contents, entries.len() as int);
}

/// Entry `i` is the one that report `k` of the first `n` entries tells of.
pub open spec fn tells(
    entries: Seq<Entry>,
    contents: Seq<Option<Vec<u8>>>,
    n: int,
    k: int,
    i: int,
) -> bool {
    &&& 0 <= i < n
    &&& reports(entries, contents, n)[k].1 == entries[i].0
    &&& change_of(entries[i].1, read_print(contents[i])) == Some(
        reports(entries, contents, n)[k].0,
    )
}

/// Every report tells of a path that changed, and reports come in the order of
/// registration.
pub proof fn law_reports_follow_registration(
    entries: Seq<Entry>,
    contents: Seq<Option<Vec<u8>>>,
    n: int,
    a: int,
    b: int,
)
    requires
        0 <= n <= entries.len(),
        entries.len() == contents.len(),
        0 <= a < b < reports(entries, contents, n).len(),
    ensures
        exists|i: int, j: int| #[trigger]
            tells(entries, contents, n, a, i) && #[trigger] tells(entries, contents, n, b, j) && i
                < j,
    decreases n,
{
    let m = n - 1;
    let before = reports(entries, contents, m);
    if b < before.len() {
        law_reports_follow_registration(entries, contents, n - 1, a, b);
        let (i, j) = choose|i: int, j: int| #[trigger]
            tells(entries, contents, m, a, i) && #[trigger] tells(
                entries,
                contents,
                m,
                b,
                j,
            ) && i < j;
        assert(tells(entries, contents, n, a, i) && tells(entries, contents, n, b, j));
    } else {
        lemma_told(entries, contents, n - 1, a);
        let i = choose|i: int| tells(entries, contents, m, a, i);
        assert(tells(entries, contents, n, a, i));
        assert(tells(entries, contents, n, b, n - 1));
    }
}

proof fn lemma_told(entries: Seq<Entry>, contents: Seq<Option<Vec<u8>>>, n: int, a: int)
    requires
        0 <= n <= entries.len(),
        0 <= a < reports(entries, contents, n).len(),
    ensures
        exists|i: int| tells(entries, contents, n, a, i),
    decreases n,
{
    let m = n - 1;
    if a < reports(entries, contents, m).len() {
        lemma_told(entries, contents, n - 1, a);
        let i = choose|i: int| tells(entries, contents, m, a, i);
        assert(tells(entries, contents, n, a, i));
    } else {
        assert(tells(entries, contents, n, a, n - 1));
    }
}

/// A changed path is reported.
pub proof fn law_changes_are_reported(
    entries: Seq<Entry>,
    contents: Seq<Option<Vec<u8>>>,
    n: int,
    i: int,
)
    requires
        0 <= i < n <= entries.len(),
        change_of(entries[i].1, read_print(contents[i])) is Some,
    ensures
        reports(entries, contents, n).contains(
            (change_of(entries[i].1, read_print(contents[i])).unwrap(), entries[i].0),
        ),
    decreases n,
{
    let told = reports(entries, contents, n);
    let item = (change_of(entries[i].1, read_print(contents[i])).unwrap(), entries[i].0);
    if i == n - 1 {
        assert(told[told.len() - 1] == item);
    } else {
        law_changes_are_reported(entries, contents, n - 1, i);
        let before = reports(entries, contents, n - 1);
        let k = choose|k: int| 0 <= k < before.len() && before[k] == item;
        assert(told[k] == item);
    }
}

/// A call on a watcher, with what was read for it.
pub ghost enum WatchCall {
    Watch(PathView, Option<Vec<u8>>),
    Unwatch(PathView),
    Poll(u128, Seq<Option<Vec<u8>>>),
    PollNow(u128, Seq<Option<Vec<u8>>>),
}

impl WatchState {
    /// The watcher after a call.
    pub open spec fn called(self, call: WatchCall) -> WatchState {
        match call {
            WatchCall::Watch(path, contents) => self.watching(path, contents),
            WatchCall::Unwatch(path) => self.unwatching(path),
            WatchCall::Poll(now, contents) => if self.due(now) {
                self.polled(now, contents)
            } else {
                self
            },
            WatchCall::PollNow(now, contents) => self.polled(now, contents),
        }
    }

    /// The events a call returns.
    pub open spec fn returned(self, call: WatchCall) -> Seq<(Change, PathView)> {
        match call {
            WatchCall::Poll(now, contents) => if self.due(now) {
                reports(self.entries, contents, self.entries.len() as int)
            } else {
                seq![]
            },
            WatchCall::PollNow(_, contents) => reports(
                self.entries,
                contents,
                self.entries.len() as int,
            ),
            _ => seq![],
        }
    }
}

/// A watcher of the given interval after a sequence of calls.
pub open spec fn after_calls(interval: u128, calls: Seq<WatchCall>) -> WatchState
    decreases calls.len(),
{
    if calls.len() == 0 {
        unused(interval)
    } else {
        after_calls(interval, calls.drop_last()).called(calls.last())
    }
}

/// The paths that were registered and not unregistered since.
pub open spec fn still_watched(calls: Seq<WatchCall>) -> Set<PathKey>
    decreases calls.len(),
{
    if calls.len() == 0 {
        Set::empty()
    } else {
        let before = still_watched(calls.drop_last());
        match calls.last() {
            WatchCall::Watch(path, _) => before.insert(path.key),
            WatchCall::Unwatch(path) => before.remove(path.key),
            _ => before,
        }
    }
}

/// The times of the polls that read the files, in their order. A poll that is
/// not due is no such poll.
pub open spec fn read_times(interval: u128, calls: Seq<WatchCall>) -> Seq<u128>
    decreases calls.len(),
{
    if calls.len() == 0 {
        seq![]
    } else {
        let before = read_times(interval, calls.drop_last());
        match calls.last() {
            WatchCall::PollNow(now, _) => before.push(now),
            WatchCall::Poll(now, _) => if before.len() == 0 || since(before.last(), now)
                >= interval {
                before.push(now)
            } else {
                before
            },
            _ => before,
        }
    }
}

/// Time passed from `last` to `now`: none where `now` is the earlier one.
pub open spec fn since(last: u128, now: u128) -> int {
    if now < last {
        0
    } else {
        now - last
    }
}

/// How many events the calls returned in all.
pub open spec fn returned_in_all(interval: u128, calls: Seq<WatchCall>) -> nat
    decreases calls.len(),
{
    if calls.len() == 0 {
        0
    } else {
        returned_in_all(interval, calls.drop_last()) + after_calls(
            interval,
            calls.drop_last(),
        ).returned(calls.last()).len()
    }
}

/// The keys of the listed paths.
spec fn listed_keys(entries: Seq<Entry>) -> Set<PathKey> {
    Set::new(|key: PathKey| exists|i: int|
        0 <= i < entries.len() && (#[trigger] entries[i]).0.key == key)
}

proof fn lemma_keys_pushed(entries: Seq<Entry>, entry: Entry)
    requires
        paths_distinct(entries),
        !lists(entries, entry.0),
    ensures
        paths_distinct(entries.push(entry)),
        listed_keys(entries.push(entry)) == listed_keys(entries).insert(entry.0.key),
        !listed_keys(entries).contains(entry.0.key),
{
    let more = entries.push(entry);
    assert forall|key: PathKey| listed_keys(more).contains(key) == listed_keys(entries).insert(
        entry.0.key,
    ).contains(key) by {
        if listed_keys(entries).contains(key) {
            let i = choose|i: int|
                0 <= i < entries.len() && (#[trigger] entries[i]).0.key == key;
            assert(more[i] == entries[i]);
        }
        if key == entry.0.key {
            assert(more[entries.len() as int] == entry);
        }
        if listed_keys(more).contains(key) {
            let i = choose|i: int| 0 <= i < more.len() && (#[trigger] more[i]).0.key == key;
            if i < entries.len() {
                assert(more[i] == entries[i]);
            }
        }
    }
    assert(listed_keys(more) =~= listed_keys(entries).insert(entry.0.key));
    assert forall|a: int, b: int| 0 <= a < b < more.len() implies (#[trigger] more[a]).0.key
        != (#[trigger] more[b]).0.key by {
        assert(more[a] == entries[a]);
        if b < entries.len() {
            assert(more[b] == entries[b]);
        }
    }
}

proof fn lemma_keys_removed(entries: Seq<Entry>, i: int)
    requires
        paths_distinct(entries),
        0 <= i < entries.len(),
    ensures
        listed_keys(entries.remove(i)) == listed_keys(entries).remove(entries[i].0.key),
        listed_keys(entries).contains(entries[i].0.key),
{
    let kept = entries.remove(i);
    let gone = entries[i].0.key;
    assert forall|key: PathKey| listed_keys(kept).contains(key) == listed_keys(entries).remove(
        gone,
    ).contains(key) by {
        if listed_keys(kept).contains(key) {
            let k = choose|k: int| 0 <= k < kept.len() && (#[trigger] kept[k]).0.key == key;
            let p = if k < i {
                k
            } else {
                k + 1
            };
            assert(kept[k] == entries[p]);
            if p < i {
                assert(entries[p].0.key != entries[i].0.key);
            } else {
                assert(entries[i].0.key != entries[p].0.key);
            }
        }
        if listed_keys(entries).contains(key) && key != gone {
            let p = choose|p: int|
                0 <= p < entries.len() && (#[trigger] entries[p]).0.key == key;
            let k = if p < i {
                p
            } else {
                p - 1
            };
            assert(kept[k] == entries[p]);
        }
    }
    assert(listed_keys(kept) =~= listed_keys(entries).remove(gone));
}

proof fn lemma_keys_refreshed(entries: Seq<Entry>, contents: Seq<Option<Vec<u8>>>)
    requires
        paths_distinct(entries),
    ensures
        paths_distinct(refreshed(entries, contents)),
        listed_keys(refreshed(entries, contents)) == listed_keys(entries),
{
    let again = refreshed(entries, contents);
    assert forall|key: PathKey| listed_keys(again).contains(key) == listed_keys(entries).contains(
        key,
    ) by {
        if listed_keys(again).contains(key) {
            let i = choose|i: int| 0 <= i < again.len() && (#[trigger] again[i]).0.key == key;
            assert(again[i].0 == entries[i].0);
        }
        if listed_keys(entries).contains(key) {
            let i = choose|i: int|
                0 <= i < entries.len() && (#[trigger] entries[i]).0.key == key;
            assert(again[i].0 == entries[i].0);
        }
    }
    assert(listed_keys(again) =~= listed_keys(entries));
    assert forall|a: int, b: int| 0 <= a < b < again.len() implies (#[trigger] again[a]).0.key
        != (#[trigger] again[b]).0.key by {
        assert(entries[a].0.key != entries[b].0.key);
    }
}

proof fn lemma_entries_after(interval: u128, calls: Seq<WatchCall>)
    ensures
        paths_distinct(after_calls(interval, calls).entries),
        listed_keys(after_calls(interval, calls).entries) == still_watched(calls),
        still_watched(calls).finite(),
        still_watched(calls).len() == after_calls(interval, calls).entries.len(),
    decreases calls.len(),
{
    if calls.len() == 0 {
        assert(listed_keys(after_calls(interval, calls).entries) =~= Set::empty());
    } else {
        let before = after_calls(interval, calls.drop_last());
        lemma_entries_after(interval, calls.drop_last());
        match calls.last() {
            WatchCall::Watch(path, contents) => {
                if lists(before.entries, path) {
                    assert(listed_keys(before.entries).contains(path.key));
                    assert(still_watched(calls) =~= still_watched(calls.drop_last()));
                } else {
                    lemma_keys_pushed(before.entries, (path, read_print(contents)));
                }
            },
            WatchCall::Unwatch(path) => {
                if lists(before.entries, path) {
                    let i = choose|i: int|
                        0 <= i < before.entries.len() && (#[trigger] before.entries[i]).0.key
                            == path.key;
                    lemma_remove_is_without(before.entries, i, path);
                    lemma_keys_removed(before.entries, i);
                } else {
                    lemma_without_unlisted(before.entries, path);
                    assert(!listed_keys(before.entries).contains(path.key));
                    assert(still_watched(calls) =~= still_watched(calls.drop_last()));
                }
            },
            WatchCall::Poll(now, contents) => {
                lemma_keys_refreshed(before.entries, contents);
            },
            WatchCall::PollNow(now, contents) => {
                lemma_keys_refreshed(before.entries, contents);
            },
        }
    }
}

/// After any sequence of calls, as many paths are watched as were registered
/// and not unregistered since: each once, whether there is a file or not, and
/// whatever was polled in between.
pub proof fn law_watched_count(interval: u128, calls: Seq<WatchCall>)
    ensures
        after_calls(interval, calls).entries.len() == still_watched(calls).len(),
        forall|path: PathView| #[trigger]
            lists(after_calls(interval, calls).entries, path) == still_watched(calls).contains(
                path.key,
            ),
        paths_distinct(after_calls(interval, calls).entries),
{
    lemma_entries_after(interval, calls);
    let entries = after_calls(interval, calls).entries;
    assert forall|path: PathView| #[trigger] lists(entries, path) == still_watched(calls).contains(
        path.key,
    ) by {
        assert(lists(entries, path) == listed_keys(entries).contains(path.key));
    }
}

/// After any sequence of calls a poll is due if none has read the files yet, or
/// if the interval has passed since the last that did. A poll that came too
/// early does not put the next one off.
pub proof fn law_poll_is_due(interval: u128, calls: Seq<WatchCall>, now: u128)
    ensures
        after_calls(interval, calls).due(now) == (read_times(interval, calls).len() == 0 || since(
            read_times(interval, calls).last(),
            now,
        ) >= interval),
{
    lemma_last_poll(interval, calls);
}

proof fn lemma_last_poll(interval: u128, calls: Seq<WatchCall>)
    ensures
        after_calls(interval, calls).interval == interval,
        match after_calls(interval, calls).last_poll {
            None => read_times(interval, calls).len() == 0,
            Some(last) => read_times(interval, calls).len() > 0 && read_times(
                interval,
                calls,
            ).last() == last,
        },
    decreases calls.len(),
{
    if calls.len() > 0 {
        lemma_last_poll(interval, calls.drop_last());
    }
}

/// A poll that ignores the interval starts it anew: the next one is due at the
/// same moment only where there is no interval.
pub proof fn law_forced_poll_restarts_the_interval(
    state: WatchState,
    now: u128,
    contents: Seq<Option<Vec<u8>>>,
)
    ensures
        state.called(WatchCall::PollNow(now, contents)).due(now) <==> state.interval == 0,
        state.due(now) ==> state.called(WatchCall::PollNow(now, contents)) == state.called(
            WatchCall::Poll(now, contents),
        ) && state.returned(WatchCall::PollNow(now, contents)) == state.returned(
            WatchCall::Poll(now, contents),
        ),
{
}

/// After any sequence of calls the watcher has counted every event it returned
/// and every poll that read the files.
pub proof fn law_counters_add_up(interval: u128, calls: Seq<WatchCall>)
    requires
        returned_in_all(interval, calls) <= u64::MAX,
        read_times(interval, calls).len() <= u64::MAX,
    ensures
        after_calls(interval, calls).events == returned_in_all(interval, calls),
        after_calls(interval, calls).disk_polls == read_times(interval, calls).len(),
    decreases calls.len(),
{
    if calls.len() > 0 {
        law_counters_add_up(interval, calls.drop_last());
        lemma_last_poll(interval, calls.drop_last());
    }
}

/// No step of the hash loses anything.
proof fn lemma_fnv_step_injective(a: u64, b: u64, byte: u8, other: u8)
    ensures
        fnv_step(a, byte) == fnv_step(b, byte) ==> a == b,
        fnv_step(a, byte) == fnv_step(a, other) ==> byte == other,
{
    let (x, y, z) = (a ^ (byte as u64), b ^ (byte as u64), a ^ (other as u64));
    lemma_multiplier_injective(x, y);
    lemma_multiplier_injective(x, z);
    let wide: u64 = byte as u64;
    let wide_other: u64 = other as u64;
    assert(a ^ wide == b ^ wide ==> a == b) by (bit_vector);
    assert(a ^ wide == a ^ wide_other ==> wide == wide_other) by (bit_vector);
}

proof fn lemma_multiplier_injective(x: u64, y: u64)
    ensures
        x.wrapping_mul(FNV_PRIME) == y.wrapping_mul(FNV_PRIME) ==> x == y,
{
    lemma_multiplier_inverse(x);
    lemma_multiplier_inverse(y);
}

proof fn lemma_multiplier_inverse(x: u64)
    ensures
        (x.wrapping_mul(FNV_PRIME) * 0xce96_5057_aff6_957b) % 0x1_0000_0000_0000_0000 == x,
{
    let m: int = 0x1_0000_0000_0000_0000;
    let p: int = 0x100_0000_01b3;
    let q: int = 0xce96_5057_aff6_957b;
    assert(p * q == 887285111055 * m + 1);
    assert(x.wrapping_mul(FNV_PRIME) == (x * p) % m);
    lemma_mul_mod_noop_left(x * p, q, m);
    assert(x * p * q == x * (p * q)) by (nonlinear_arith);
    assert(x * (887285111055 * m + 1) == m * (887285111055 * x) + x) by (nonlinear_arith);
    vstd::arithmetic::div_mod::lemma_mod_multiples_vanish(887285111055 * x, x as int, m);
    lemma_small_mod(x as nat, m as nat);
}

proof fn lemma_fnv_suffix(a: Seq<u8>, b: Seq<u8>, suffix: Seq<u8>)
    requires
        fnv(a) != fnv(b),
    ensures
        fnv(a + suffix) != fnv(b + suffix),
    decreases suffix.len(),
{
    if suffix.len() == 0 {
        assert(a + suffix =~= a);
        assert(b + suffix =~= b);
    } else {
        let shorter = suffix.drop_last();
        lemma_fnv_suffix(a, b, shorter);
        assert((a + suffix).drop_last() =~= a + shorter);
        assert((b + suffix).drop_last() =~= b + shorter);
        lemma_fnv_step_injective(fnv(a + shorter), fnv(b + shorter), suffix.last(), 0);
    }
}

/// An edit of one byte that keeps the size is seen: the fingerprints differ.
pub proof fn law_one_byte_edit_is_seen(prefix: Seq<u8>, was: u8, is: u8, suffix: Seq<u8>)
    requires
        was != is,
    ensures
        print_of(prefix.push(was) + suffix) != print_of(prefix.push(is) + suffix),
{
    let (a, b) = (prefix.push(was), prefix.push(is));
    assert(a.drop_last() =~= prefix && b.drop_last() =~= prefix);
    lemma_fnv_step_injective(fnv(prefix), fnv(prefix), was, is);
    lemma_fnv_suffix(a, b, suffix);
}

} // verus!
