//! What watching files and naming them means, said of single files and parts.

use vstd::prelude::*;
use crate::assets::hot_reload::{
    change_of, fnv, lists, print_of, read_print, Change, Entry, Fingerprint, WatchState,
};
use crate::assets::path::{parts_from, path_key, PathView};
use crate::text::find_char;

verus! {

/// A fingerprint is the length of the contents and their FNV-1a hash over 64 bits: each
/// byte is mixed in by exclusive or, and the result multiplied by the prime.
pub proof fn law_fingerprints(bytes: Seq<u8>, byte: u8)
    requires
        bytes.len() < u64::MAX,
    ensures
        fnv(Seq::<u8>::empty()) == 0xcbf2_9ce4_8422_2325,
        fnv(bytes.push(byte)) as int == ((fnv(bytes) ^ byte as u64) as int * 0x100_0000_01b3)
            % 0x1_0000_0000_0000_0000,
        print_of(bytes).hash == fnv(bytes),
        print_of(bytes).length == bytes.len(),
{
    assert(bytes.push(byte).drop_last() =~= bytes);
}

/// A file is reported once when it comes, once when it goes and once for each change
/// between, and only then.
pub proof fn law_changes(last: Option<Fingerprint>, now: Option<Fingerprint>)
    ensures
        change_of(last, now) is None <==> last == now,
        change_of(last, now) == Some(Change::Removed) <==> last is Some && now is None,
        change_of(last, now) == Some(Change::Appeared) <==> last is None && now is Some,
        change_of(last, now) == Some(Change::Changed) <==> last is Some && now is Some && last
            != now,
{
}

/// Watching a file puts it behind the others, as it is now; one that is watched already
/// stays where and as it is.
pub proof fn law_watching(state: WatchState, path: PathView, contents: Option<Vec<u8>>)
    ensures
        ({
            let r = state.watching(path, contents);
            &&& r.interval == state.interval && r.last_poll == state.last_poll && r.disk_polls
                == state.disk_polls && r.events == state.events
            &&& (forall|i: int|
                0 <= i < state.entries.len() ==> (#[trigger] state.entries[i]).0.key != path.key)
                ==> r.entries.len() == state.entries.len() + 1 && r.entries.last().0 == path
                && r.entries.last().1 == read_print(contents) && r.entries.drop_last()
                == state.entries
            &&& (exists|i: int|
                0 <= i < state.entries.len() && (#[trigger] state.entries[i]).0.key == path.key)
                ==> r == state
        }),
{
    if !lists(state.entries, path) {
        assert(state.entries.push((path, read_print(contents))).drop_last() =~= state.entries);
    }
}

/// Watching a file no more takes out its entry and leaves the others in their order.
pub proof fn law_unwatching(state: WatchState, path: PathView, e: Entry)
    ensures
        ({
            let r = state.unwatching(path);
            &&& r.interval == state.interval && r.last_poll == state.last_poll && r.disk_polls
                == state.disk_polls && r.events == state.events
            &&& r.entries.contains(e) <==> state.entries.contains(e) && e.0.key != path.key
            &&& !lists(state.entries, path) ==> r.entries == state.entries
        }),
{
    let keep = |x: Entry| x.0.key != path.key;
    lemma_filtered(state.entries, keep, e);
    if !lists(state.entries, path) {
        lemma_all_kept(state.entries, keep);
    }
}

/// What a filter keeps.
proof fn lemma_filtered(all: Seq<Entry>, keep: spec_fn(Entry) -> bool, e: Entry)
    ensures
        all.filter(keep).contains(e) <==> all.contains(e) && keep(e),
    decreases all.len(),
{
    reveal(Seq::filter);
    if all.len() > 0 {
        let front = all.drop_last();
        let kept = front.filter(keep);
        lemma_filtered(front, keep, e);
        if front.contains(e) {
            let i = choose|i: int| 0 <= i < front.len() && front[i] == e;
            assert(all[i] == e);
        }
        if all.contains(e) {
            let i = choose|i: int| 0 <= i < all.len() && all[i] == e;
            if i < front.len() {
                assert(front[i] == e);
            }
        }
        assert(all[all.len() - 1] == all.last());
        if keep(all.last()) {
            let more = kept.push(all.last());
            if kept.contains(e) {
                let i = choose|i: int| 0 <= i < kept.len() && kept[i] == e;
                assert(more[i] == e);
            }
            assert(more[kept.len() as int] == all.last());
            if more.contains(e) {
                let i = choose|i: int| 0 <= i < more.len() && more[i] == e;
                if i < kept.len() {
                    assert(kept[i] == e);
                }
            }
        }
    }
}

/// A filter that keeps everything.
proof fn lemma_all_kept(all: Seq<Entry>, keep: spec_fn(Entry) -> bool)
    requires
        forall|i: int| 0 <= i < all.len() ==> keep(#[trigger] all[i]),
    ensures
        all.filter(keep) == all,
    decreases all.len(),
{
    reveal(Seq::filter);
    if all.len() > 0 {
        let front = all.drop_last();
        assert forall|i: int| 0 <= i < front.len() implies keep(#[trigger] front[i]) by {
            assert(front[i] == all[i]);
        }
        lemma_all_kept(front, keep);
        assert(keep(all[all.len() - 1]));
        assert(front.push(all.last()) =~= all);
    }
}

/// A poll remembers when it was, counts itself and what it reports, and remembers every
/// file as it was read.
pub proof fn law_polls(state: WatchState, now: u128, contents: Seq<Option<Vec<u8>>>, i: int)
    requires
        0 <= i < state.entries.len(),
        state.disk_polls < u64::MAX,
    ensures
        ({
            let r = state.polled(now, contents);
            &&& r.last_poll == Some(now)
            &&& r.disk_polls == state.disk_polls + 1
            &&& r.interval == state.interval
            &&& r.entries.len() == state.entries.len()
            &&& r.entries[i].0 == state.entries[i].0
            &&& r.entries[i].1 == read_print(contents[i])
            &&& change_of(r.entries[i].1, read_print(contents[i])) is None
        }),
{
}

/// A first poll is due at once, a later one when the interval has passed, and a clock that
/// runs backwards makes none due but where there is no interval.
pub proof fn law_due(state: WatchState, now: u128, last: u128)
    ensures
        state.last_poll is None ==> state.due(now),
        state.last_poll == Some(last) && last <= now ==> (state.due(now) <==> last + state.interval
            <= now),
        state.last_poll == Some(last) && now < last ==> (state.due(now) <==> state.interval == 0),
{
}

/// A name of a file or a directory.
pub open spec fn is_name(part: Seq<char>) -> bool {
    part.len() > 0 && part != seq!['.'] && !part.contains('/')
}

/// The names between slashes are the parts of a path, and a leading slash roots it.
pub proof fn law_path_parts(a: Seq<char>, b: Seq<char>)
    requires
        is_name(a),
        is_name(b),
    ensures
        path_key(a).parts == seq![a] && !path_key(a).rooted,
        path_key(a + seq!['/'] + b).parts == seq![a, b] && !path_key(a + seq!['/'] + b).rooted,
        path_key(seq!['/'] + a).parts == seq![a] && path_key(seq!['/'] + a).rooted,
{
    assert(a[0] != '/') by {
        if a[0] == '/' {
            assert(a.contains('/'));
        }
    }
    assert(a.subrange(0, a.len() as int) =~= a);
    lemma_name_at(a, 0, a);
    let s = a + seq!['/'] + b;
    assert(s[0] == a[0]);
    assert(s[a.len() as int] == '/');
    assert(s.subrange(0, a.len() as int) =~= a);
    assert(s.subrange(a.len() as int + 1, s.len() as int) =~= b);
    lemma_name_at(s, 0, a);
    lemma_name_at(s, a.len() as int + 1, b);
    assert(seq![a] + seq![b] =~= seq![a, b]);
    let r = seq!['/'] + a;
    assert(r[0] == '/');
    assert(r.subrange(1, r.len() as int) =~= a);
    lemma_name_at(r, 1, a);
    assert(find_char(r, 0, '/') == 0);
    assert(r.subrange(0, 0).len() == 0);
}

/// The part that a name makes.
proof fn lemma_name_at(s: Seq<char>, at: int, name: Seq<char>)
    requires
        is_name(name),
        0 <= at,
        at + name.len() <= s.len(),
        s.subrange(at, at + name.len()) == name,
        at + name.len() < s.len() ==> s[at + name.len()] == '/',
    ensures
        parts_from(s, at) == seq![name] + parts_from(s, at + name.len() + 1),
        parts_from(s, s.len() as int + 1) == Seq::<Seq<char>>::empty(),
{
    lemma_slash(s, at, at + name.len(), name);
}

/// The first slash behind a name.
proof fn lemma_slash(s: Seq<char>, from: int, to: int, name: Seq<char>)
    requires
        !name.contains('/'),
        to - name.len() <= from <= to,
        0 <= to - name.len(),
        to <= s.len(),
        s.subrange(to - name.len(), to) == name,
        to < s.len() ==> s[to] == '/',
    ensures
        find_char(s, from, '/') == to,
    decreases to - from,
{
    if from < to {
        let i = from - (to - name.len());
        assert(s[from] == s.subrange(to - name.len(), to)[i]);
        assert(name[i] == s[from]);
        assert(name.contains(name[i]));
        lemma_slash(s, from + 1, to, name);
    }
}

} // verus!
