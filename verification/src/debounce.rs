//! The change coalescing queue: file events wait here until a tick drains
//! them, a path within its quiet window waits for a later tick, and within
//! one drain each path is handled at most once.

use vstd::prelude::*;
use vstd::hash_map::StringHashMap;
use vstd::hash_set::StringHashSet;
use crate::utils::{extension_of, is_code_extension, is_code_file};

verus! {

/// The quiet window in milliseconds: a path handled less than this long ago
/// is not handled again yet.
pub const QUIET_WINDOW_MS: u64 = 100;

/// What happened to a file.
#[derive(Clone, Copy, Debug, PartialEq, Eq, Structural)]
pub enum EventKind {
    /// The file was created, modified or renamed.
    Change,
    /// The file was removed.
    Remove,
}

/// A file event: the path and what happened to it.
#[derive(Debug)]
pub struct Event {
    pub path: String,
    pub kind: EventKind,
}

/// An event as specifications see it.
pub struct EventView {
    pub path: Seq<char>,
    pub kind: EventKind,
}

impl View for Event {
    type V = EventView;

    open spec fn view(&self) -> EventView {
        EventView { path: self.path@, kind: self.kind }
    }
}

impl Clone for Event {
    fn clone(&self) -> (copy: Event)
        ensures
            copy@ == self@,
    {
        Event { path: self.path.clone(), kind: self.kind }
    }
}

/// The event of kind `kind` on `path`.
pub open spec fn queued_event(path: Seq<char>, kind: EventKind) -> EventView {
    EventView { path, kind }
}

/// The time from `then` to `now`; nothing where `now` is the earlier.
pub open spec fn elapsed(then: u64, now: u64) -> int {
    if now >= then {
        now - then
    } else {
        0
    }
}

/// `path` was handled less than the quiet window before `now`.
pub open spec fn is_quiet(last: Map<Seq<char>, u64>, path: Seq<char>, now: u64) -> bool {
    last.contains_key(path) && elapsed(last[path], now) < QUIET_WINDOW_MS
}

/// The paths of some events.
pub open spec fn paths_of(events: Seq<EventView>) -> Set<Seq<char>> {
    Set::new(|path: Seq<char>| exists|i: int| 0 <= i < events.len() && #[trigger] events[i].path == path)
}

/// The events a drain at `now` hands out, in the order they were queued:
/// for each path outside its quiet window the first event queued.
pub open spec fn due(pending: Seq<EventView>, last: Map<Seq<char>, u64>, now: u64) -> Seq<EventView>
    decreases pending.len(),
{
    if pending.len() == 0 {
        Seq::empty()
    } else {
        let head = due(pending.drop_last(), last, now);
        let event = pending.last();
        if !is_quiet(last, event.path, now) && !paths_of(pending.drop_last()).contains(event.path) {
            head.push(event)
        } else {
            head
        }
    }
}

/// The events a drain at `now` keeps for a later tick, in the order they
/// were queued: those of the paths within their quiet window.
pub open spec fn deferred(pending: Seq<EventView>, last: Map<Seq<char>, u64>, now: u64) -> Seq<EventView>
    decreases pending.len(),
{
    if pending.len() == 0 {
        Seq::empty()
    } else {
        let head = deferred(pending.drop_last(), last, now);
        let event = pending.last();
        if is_quiet(last, event.path, now) {
            head.push(event)
        } else {
            head
        }
    }
}

/// The times of last handling after the paths of `work` were handled at
/// `now`.
pub open spec fn stamped(last: Map<Seq<char>, u64>, work: Seq<EventView>, now: u64) -> Map<Seq<char>, u64> {
    Map::new(
        |path: Seq<char>| last.contains_key(path) || paths_of(work).contains(path),
        |path: Seq<char>|
            if paths_of(work).contains(path) {
                now
            } else {
                last[path]
            },
    )
}

/// A path is among those a drain hands out exactly when it is queued and
/// outside its quiet window.
pub proof fn lemma_due_paths(pending: Seq<EventView>, last: Map<Seq<char>, u64>, now: u64, path: Seq<char>)
    ensures
        paths_of(due(pending, last, now)).contains(path) <==> (paths_of(pending).contains(path) && !is_quiet(
            last,
            path,
            now,
        )),
    decreases pending.len(),
{
    let out = due(pending, last, now);
    if pending.len() > 0 {
        let front = pending.drop_last();
        let event = pending.last();
        let head = due(front, last, now);
        lemma_due_paths(front, last, now, path);
        if paths_of(out).contains(path) {
            let i = choose|i: int| 0 <= i < out.len() && #[trigger] out[i].path == path;
            if i < head.len() {
                assert(head[i].path == path);
                assert(paths_of(head).contains(path));
                let j = choose|j: int| 0 <= j < front.len() && #[trigger] front[j].path == path;
                assert(pending[j].path == path);
            } else {
                assert(pending[pending.len() - 1].path == path);
            }
        }
        if paths_of(pending).contains(path) && !is_quiet(last, path, now) {
            let j = choose|j: int| 0 <= j < pending.len() && #[trigger] pending[j].path == path;
            if j < front.len() {
                assert(front[j].path == path);
                assert(paths_of(front).contains(path));
                let i = choose|i: int| 0 <= i < head.len() && #[trigger] head[i].path == path;
                assert(out[i].path == path);
            } else if paths_of(front).contains(path) {
                let i = choose|i: int| 0 <= i < head.len() && #[trigger] head[i].path == path;
                assert(out[i].path == path);
            } else {
                assert(out[out.len() - 1].path == path);
            }
        }
    } else {
        assert(out =~= Seq::<EventView>::empty());
    }
}

/// Within one drain a path is handled at most once: no two of the events
/// handed out have the same path.
pub proof fn lemma_due_once_per_path(pending: Seq<EventView>, last: Map<Seq<char>, u64>, now: u64)
    ensures
        forall|i: int, j: int|
            0 <= i < j < due(pending, last, now).len() ==> due(pending, last, now)[i].path != due(
                pending,
                last,
                now,
            )[j].path,
    decreases pending.len(),
{
    if pending.len() > 0 {
        let front = pending.drop_last();
        let head = due(front, last, now);
        let out = due(pending, last, now);
        lemma_due_once_per_path(front, last, now);
        assert forall|i: int, j: int| 0 <= i < j < out.len() implies out[i].path != out[j].path by {
            if j == head.len() {
                assert(head[i].path == out[i].path);
                assert(paths_of(head).contains(out[i].path));
                lemma_due_paths(front, last, now, out[i].path);
            } else {
                assert(head[i] == out[i] && head[j] == out[j]);
            }
        }
    }
}

/// A path that a drain handed out stays quiet for the whole quiet window:
/// a drain within the window does not hand it out again.
pub proof fn lemma_quiet_after_drain(
    pending: Seq<EventView>,
    last: Map<Seq<char>, u64>,
    now: u64,
    later: u64,
    queued: Seq<EventView>,
)
    requires
        later < now + QUIET_WINDOW_MS,
    ensures
        forall|path: Seq<char>|
            paths_of(due(pending, last, now)).contains(path) ==> !paths_of(
                due(queued, stamped(last, due(pending, last, now), now), later),
            ).contains(path),
{
    let after = stamped(last, due(pending, last, now), now);
    assert forall|path: Seq<char>| paths_of(due(pending, last, now)).contains(path) implies !paths_of(
        due(queued, after, later),
    ).contains(path) by {
        lemma_due_paths(queued, after, later, path);
        assert(is_quiet(after, path, later));
    }
}

/// The queue of file events and the time each path was last handled.
pub struct EventQueue {
    pending: Vec<Event>,
    last_processed: StringHashMap<u64>,
}

impl EventQueue {
    /// The events that wait, oldest first.
    pub closed spec fn pending(&self) -> Seq<EventView> {
        self.pending@.map_values(|e: Event| e@)
    }

    /// For each path handled so far, the time it was last handled.
    pub closed spec fn last_processed(&self) -> Map<Seq<char>, u64> {
        self.last_processed@
    }

    /// An empty queue that has handled no path.
    pub fn new() -> (queue: EventQueue)
        ensures
            queue.pending() == Seq::<EventView>::empty(),
            queue.last_processed() == Map::<Seq<char>, u64>::empty(),
    {
        let queue = EventQueue { pending: Vec::new(), last_processed: StringHashMap::new() };
        assert(queue.pending() =~= Seq::<EventView>::empty());
        queue
    }

    /// The number of events that wait.
    pub fn len(&self) -> (n: usize)
        ensures
            n == self.pending().len(),
    {
        self.pending.len()
    }

    /// Takes note of an event on `path`: it is queued where the path names
    /// a watched source file, and dropped otherwise.
    pub fn notify(&mut self, path: &str, kind: EventKind) -> (queued: bool)
        ensures
            queued == is_code_extension(extension_of(path@)),
            final(self).last_processed() == old(self).last_processed(),
            final(self).pending() == if queued {
                old(self).pending().push(queued_event(path@, kind))
            } else {
                old(self).pending()
            },
    {
        if is_code_file(path) {
            self.push(path, kind);
            true
        } else {
            false
        }
    }

    /// Queues an event on `path`.
    pub fn push(&mut self, path: &str, kind: EventKind)
        ensures
            final(self).last_processed() == old(self).last_processed(),
            final(self).pending() == old(self).pending().push(queued_event(path@, kind)),
    {
        self.pending.push(Event { path: path.to_owned(), kind });
        assert(self.pending() =~= old(self).pending().push(queued_event(path@, kind)));
    }

    /// Drains the queue at time `now`, in milliseconds. Returns the events
    /// to handle, in the order they were queued: for each path outside its
    /// quiet window the first event queued. Later events of such a path are
    /// dropped, the events of the other paths wait for a later tick, and
    /// each path handed out counts as handled at `now`.
    pub fn drain(&mut self, now: u64) -> (work: Vec<Event>)
        ensures
            work@.map_values(|e: Event| e@) == due(old(self).pending(), old(self).last_processed(), now),
            final(self).pending() == deferred(old(self).pending(), old(self).last_processed(), now),
            final(self).last_processed() == stamped(
                old(self).last_processed(),
                due(old(self).pending(), old(self).last_processed(), now),
                now,
            ),
    {
        let ghost queued = self.pending();
        let ghost last = self.last_processed@;
        let mut work: Vec<Event> = Vec::new();
        let mut kept: Vec<Event> = Vec::new();
        let mut handled = StringHashSet::new();
        let mut i: usize = 0;
        proof {
            assert(queued.take(0) =~= Seq::<EventView>::empty());
            assert(work@.map_values(|e: Event| e@) =~= due(queued.take(0), last, now));
            assert(kept@.map_values(|e: Event| e@) =~= deferred(queued.take(0), last, now));
            assert(self.last_processed@ =~= stamped(last, due(queued.take(0), last, now), now));
            assert(handled@ =~= paths_of(due(queued.take(0), last, now)));
        }
        while i < self.pending.len()
            invariant
                i <= self.pending.len(),
                self.pending() == queued,
                work@.map_values(|e: Event| e@) == due(queued.take(i as int), last, now),
                kept@.map_values(|e: Event| e@) == deferred(queued.take(i as int), last, now),
                self.last_processed@ == stamped(last, due(queued.take(i as int), last, now), now),
                handled@ == paths_of(due(queued.take(i as int), last, now)),
            decreases self.pending.len() - i,
        {
            let event = &self.pending[i];
            let ghost front = queued.take(i as int);
            let ghost head = due(front, last, now);
            proof {
                assert(queued.take(i + 1).drop_last() =~= front);
                assert(queued.take(i + 1).last() == event@);
                lemma_due_paths(front, last, now, event.path@);
            }
            if !handled.contains(event.path.as_str()) {
                let quiet = match self.last_processed.get(event.path.as_str()) {
                    Some(then) => now < *then || now - *then < QUIET_WINDOW_MS,
                    None => false,
                };
                assert(quiet == is_quiet(last, event.path@, now));
                if quiet {
                    kept.push(event.clone());
                    assert(kept@.map_values(|e: Event| e@) =~= deferred(front, last, now).push(event@));
                } else {
                    let ghost out = head.push(event@);
                    work.push(event.clone());
                    self.last_processed.insert(event.path.clone(), now);
                    handled.insert(event.path.clone());
                    proof {
                        assert(work@.map_values(|e: Event| e@) =~= out);
                        assert forall|path: Seq<char>|
                            paths_of(out).contains(path) <==> (paths_of(head).contains(path) || path
                                == event.path@) by {
                            if paths_of(out).contains(path) {
                                let k = choose|k: int| 0 <= k < out.len() && #[trigger] out[k].path == path;
                                if k < head.len() {
                                    assert(head[k].path == path);
                                }
                            }
                            if paths_of(head).contains(path) {
                                let k = choose|k: int| 0 <= k < head.len() && #[trigger] head[k].path == path;
                                assert(out[k].path == path);
                            }
                            if path == event.path@ {
                                assert(out[out.len() - 1].path == path);
                            }
                        }
                        assert(handled@ =~= paths_of(out));
                        assert(self.last_processed@ =~= stamped(last, out, now));
                    }
                }
            }
            i += 1;
        }
        proof {
            assert(queued.take(queued.len() as int) =~= queued);
        }
        self.pending = kept;
        work
    }
}

} // verus!
