//! The debouncer: it holds the events of a burst for a quiescence window and
//! forwards them as one reduced batch.

use crate::event::{changes, Change, ChangeEvent};
use vstd::prelude::*;

verus! {

/// The position of the last of `pending` that speaks of `path`; -1 where
/// none does.
pub open spec fn last_touching(pending: Seq<Change>, path: Seq<char>) -> int
    decreases pending.len(),
{
    if pending.len() == 0 {
        -1
    } else if pending.last().touches(path) {
        pending.len() - 1
    } else {
        last_touching(pending.drop_last(), path)
    }
}

/// The last of `pending` that speaks of `path`, if any.
pub open spec fn latest(pending: Seq<Change>, path: Seq<char>) -> Option<Change> {
    let at = last_touching(pending, path);
    if at >= 0 {
        Some(pending[at])
    } else {
        None
    }
}

/// The pending events once `event` has arrived behind them.
///
/// A creation and a rename always join the batch. A write is dropped behind a
/// pending creation or write of the same path. A removal cancels a pending
/// creation of the same path and goes with it, and is dropped behind a
/// pending removal. What is pending for a path is the last event that speaks
/// of it.
pub open spec fn absorb(pending: Seq<Change>, event: Change) -> Seq<Change> {
    match event {
        Change::Created(_) => pending.push(event),
        Change::Renamed(_, _) => pending.push(event),
        Change::Modified(path) => {
            let before = latest(pending, path);
            if before == Some(Change::Created(path)) || before == Some(Change::Modified(path)) {
                pending
            } else {
                pending.push(event)
            }
        },
        Change::Removed(path) => {
            let before = latest(pending, path);
            if before == Some(Change::Created(path)) {
                pending.remove(last_touching(pending, path))
            } else if before == Some(Change::Removed(path)) {
                pending
            } else {
                pending.push(event)
            }
        },
    }
}

/// The batch that a burst of raw events is reduced to.
pub open spec fn coalesced(raw: Seq<Change>) -> Seq<Change>
    decreases raw.len(),
{
    if raw.len() == 0 {
        Seq::empty()
    } else {
        absorb(coalesced(raw.drop_last()), raw.last())
    }
}

/// Where the last of `pending` that speaks of `path` stands.
proof fn lemma_last_touching(pending: Seq<Change>, path: Seq<char>)
    ensures
        -1 <= last_touching(pending, path) < pending.len(),
        last_touching(pending, path) >= 0 ==> pending[last_touching(pending, path)].touches(path),
        forall|i: int|
            last_touching(pending, path) < i < pending.len() ==> !(#[trigger] pending[i]).touches(
                path,
            ),
    decreases pending.len(),
{
    if pending.len() > 0 && !pending.last().touches(path) {
        lemma_last_touching(pending.drop_last(), path);
        assert forall|i: int| last_touching(pending, path) < i < pending.len() implies !(
        #[trigger] pending[i]).touches(path) by {
            if i < pending.len() - 1 {
                assert(pending.drop_last()[i] == pending[i]);
            }
        }
    }
}

fn speaks_of(event: &ChangeEvent, path: &String) -> (yes: bool)
    ensures
        yes == event@.touches(path@),
{
    match event {
        ChangeEvent::Created(p) => *p == *path,
        ChangeEvent::Modified(p) => *p == *path,
        ChangeEvent::Removed(p) => *p == *path,
        ChangeEvent::Renamed(from, to) => *from == *path || *to == *path,
    }
}

/// Finds the last of `pending` that speaks of `path`.
fn find_latest(pending: &Vec<ChangeEvent>, path: &String) -> (at: Option<usize>)
    ensures
        at matches Some(i) ==> i < pending@.len() && i == last_touching(
            changes(pending@),
            path@,
        ),
        at is None ==> last_touching(changes(pending@), path@) == -1,
{
    let ghost all = changes(pending@);
    let mut i: usize = pending.len();
    assert(all.take(i as int) =~= all);
    while i > 0
        invariant
            i <= pending@.len(),
            all == changes(pending@),
            last_touching(all, path@) == last_touching(all.take(i as int), path@),
        decreases i,
    {
        assert(all.take(i as int).last() == pending@[i - 1]@);
        assert(all.take(i as int).drop_last() =~= all.take(i - 1));
        if speaks_of(&pending[i - 1], path) {
            return Some(i - 1);
        }
        i -= 1;
    }
    assert(all.take(0) =~= Seq::<Change>::empty());
    None
}

/// What a pending event is, as far as coalescing asks.
enum Standing {
    Created,
    Modified,
    Removed,
    Other,
}

fn standing(event: &ChangeEvent, path: &String) -> (kind: Standing)
    ensures
        match kind {
            Standing::Created => event@ == Change::Created(path@),
            Standing::Modified => event@ == Change::Modified(path@),
            Standing::Removed => event@ == Change::Removed(path@),
            Standing::Other => event@ != Change::Created(path@) && event@ != Change::Modified(
                path@,
            ) && event@ != Change::Removed(path@),
        },
{
    match event {
        ChangeEvent::Created(p) => if *p == *path {
            Standing::Created
        } else {
            Standing::Other
        },
        ChangeEvent::Modified(p) => if *p == *path {
            Standing::Modified
        } else {
            Standing::Other
        },
        ChangeEvent::Removed(p) => if *p == *path {
            Standing::Removed
        } else {
            Standing::Other
        },
        ChangeEvent::Renamed(_, _) => Standing::Other,
    }
}

/// Takes `event` into the batch `pending`.
pub fn absorb_event(pending: &mut Vec<ChangeEvent>, event: ChangeEvent)
    ensures
        changes(final(pending)@) == absorb(changes(old(pending)@), event@),
{
    let ghost before = changes(pending@);
    let ghost incoming = event@;
    match event {
        ChangeEvent::Created(path) => {
            pending.push(ChangeEvent::Created(path));
            assert(changes(pending@) =~= before.push(incoming));
        },
        ChangeEvent::Renamed(from, to) => {
            pending.push(ChangeEvent::Renamed(from, to));
            assert(changes(pending@) =~= before.push(incoming));
        },
        ChangeEvent::Modified(path) => {
            let at = find_latest(pending, &path);
            let kind = match at {
                Some(i) => {
                    assert(before[i as int] == pending@[i as int]@);
                    standing(&pending[i], &path)
                },
                None => Standing::Other,
            };
            match kind {
                Standing::Created | Standing::Modified => {},
                _ => {
                    pending.push(ChangeEvent::Modified(path));
                    assert(changes(pending@) =~= before.push(incoming));
                },
            }
        },
        ChangeEvent::Removed(path) => {
            let at = find_latest(pending, &path);
            let kind = match at {
                Some(i) => {
                    assert(before[i as int] == pending@[i as int]@);
                    standing(&pending[i], &path)
                },
                None => Standing::Other,
            };
            match kind {
                Standing::Created => {
                    let i = at.unwrap();
                    pending.remove(i);
                    assert(changes(pending@) =~= before.remove(i as int));
                },
                Standing::Removed => {},
                _ => {
                    pending.push(ChangeEvent::Removed(path));
                    assert(changes(pending@) =~= before.push(incoming));
                },
            }
        },
    }
}

/// Reduces a burst of raw events to the batch that is forwarded.
pub fn coalesce(raw: Vec<ChangeEvent>) -> (batch: Vec<ChangeEvent>)
    ensures
        changes(batch@) == coalesced(changes(raw@)),
        settled(changes(batch@)),
{
    let ghost all = changes(raw@);
    let mut batch: Vec<ChangeEvent> = Vec::new();
    assert(changes(batch@) =~= Seq::<Change>::empty());
    for event in it: raw
        invariant
            changes(it.seq()) == all,
            changes(batch@) == coalesced(all.take(it.index() as int)),
    {
        proof {
            let done = it.index() as int;
            assert(event@ == all[done]);
            assert(all.take(done + 1).drop_last() =~= all.take(done));
            assert(all.take(done + 1).last() == all[done]);
        }
        absorb_event(&mut batch, event);
    }
    proof {
        assert(all.take(all.len() as int) =~= all);
        lemma_coalesced_is_settled(all);
    }
    batch
}


/// A creation directly followed by a removal of the same path leaves the
/// batch as it was: the two cancel, whatever was pending.
pub proof fn lemma_create_then_remove_cancels(pending: Seq<Change>, path: Seq<char>)
    ensures
        absorb(absorb(pending, Change::Created(path)), Change::Removed(path)) == pending,
{
    let grown = pending.push(Change::Created(path));
    assert(grown.last().touches(path));
    assert(last_touching(grown, path) == pending.len());
    assert(grown.remove(pending.len() as int) =~= pending);
}

/// A burst that ends in a creation and a removal of one path is reduced to
/// what the burst before them is reduced to.
pub proof fn lemma_burst_create_remove(raw: Seq<Change>, path: Seq<char>)
    ensures
        coalesced(raw.push(Change::Created(path)).push(Change::Removed(path))) == coalesced(raw),
{
    let one = raw.push(Change::Created(path));
    let two = one.push(Change::Removed(path));
    assert(two.drop_last() =~= one);
    assert(one.drop_last() =~= raw);
    assert(coalesced(one) == absorb(coalesced(raw), Change::Created(path)));
    assert(coalesced(two) == absorb(coalesced(one), Change::Removed(path)));
    lemma_create_then_remove_cancels(coalesced(raw), path);
}

/// A creation directly followed by a write of the same path is forwarded as
/// the creation alone.
pub proof fn lemma_create_then_modify(pending: Seq<Change>, path: Seq<char>)
    ensures
        absorb(absorb(pending, Change::Created(path)), Change::Modified(path)) == pending.push(
            Change::Created(path),
        ),
{
    let grown = pending.push(Change::Created(path));
    assert(grown.last().touches(path));
    assert(last_touching(grown, path) == pending.len());
}

/// A second write or a second removal of a path, directly behind the first,
/// changes nothing.
pub proof fn lemma_repeat_is_dropped(pending: Seq<Change>, path: Seq<char>)
    ensures
        absorb(pending.push(Change::Modified(path)), Change::Modified(path)) == pending.push(
            Change::Modified(path),
        ),
        absorb(pending.push(Change::Removed(path)), Change::Removed(path)) == pending.push(
            Change::Removed(path),
        ),
{
    let written = pending.push(Change::Modified(path));
    assert(written.last().touches(path));
    assert(last_touching(written, path) == pending.len());
    let removed = pending.push(Change::Removed(path));
    assert(removed.last().touches(path));
    assert(last_touching(removed, path) == pending.len());
}

/// Whether the event at `at` could not have been coalesced with what stands
/// before it in `batch`: a write has no creation or write of its path pending
/// before it, a removal no creation or removal.
pub open spec fn settled_at(batch: Seq<Change>, at: int) -> bool {
    match batch[at] {
        Change::Modified(path) => {
            let before = latest(batch.take(at), path);
            before != Some(Change::Created(path)) && before != Some(Change::Modified(path))
        },
        Change::Removed(path) => {
            let before = latest(batch.take(at), path);
            before != Some(Change::Created(path)) && before != Some(Change::Removed(path))
        },
        _ => true,
    }
}

/// Whether `batch` is reduced: none of its events could have been coalesced
/// with what stands before it.
pub open spec fn settled(batch: Seq<Change>) -> bool {
    forall|at: int| 0 <= at < batch.len() ==> settled_at(batch, at)
}

/// Taking out an event that does not speak of `path` changes nothing about
/// what is pending for `path`.
proof fn lemma_latest_without(pending: Seq<Change>, at: int, path: Seq<char>)
    requires
        0 <= at < pending.len(),
        !pending[at].touches(path),
    ensures
        latest(pending.remove(at), path) == latest(pending, path),
    decreases pending.len(),
{
    let shorter = pending.remove(at);
    let front = pending.drop_last();
    lemma_last_touching(front, path);
    if at == pending.len() - 1 {
        assert(shorter =~= front);
        assert(latest(pending, path) == latest(front, path));
    } else {
        assert(shorter.last() == pending.last());
        assert(shorter.drop_last() =~= front.remove(at));
        if !pending.last().touches(path) {
            lemma_latest_without(front, at, path);
            lemma_last_touching(shorter.drop_last(), path);
            assert(latest(pending, path) == latest(front, path));
            assert(latest(shorter, path) == latest(shorter.drop_last(), path));
        }
    }
}

proof fn lemma_push_settled(pending: Seq<Change>, event: Change)
    requires
        settled(pending),
        settled_at(pending.push(event), pending.len() as int),
    ensures
        settled(pending.push(event)),
{
    let grown = pending.push(event);
    assert forall|at: int| 0 <= at < grown.len() implies settled_at(grown, at) by {
        if at < pending.len() {
            assert(grown.take(at) =~= pending.take(at));
            assert(settled_at(pending, at));
        }
    }
}

proof fn lemma_cancel_settled(pending: Seq<Change>, path: Seq<char>)
    requires
        settled(pending),
        latest(pending, path) == Some(Change::Created(path)),
    ensures
        settled(pending.remove(last_touching(pending, path))),
{
    let gone = last_touching(pending, path);
    let shorter = pending.remove(gone);
    lemma_last_touching(pending, path);
    assert forall|at: int| 0 <= at < shorter.len() implies settled_at(shorter, at) by {
        if at < gone {
            assert(shorter.take(at) =~= pending.take(at));
            assert(settled_at(pending, at));
        } else {
            assert(shorter[at] == pending[at + 1]);
            assert(settled_at(pending, at + 1));
            assert(!pending[at + 1].touches(path));
            assert(shorter.take(at) =~= pending.take(at + 1).remove(gone));
            match pending[at + 1] {
                Change::Modified(other) => {
                    lemma_latest_without(pending.take(at + 1), gone, other);
                },
                Change::Removed(other) => {
                    lemma_latest_without(pending.take(at + 1), gone, other);
                },
                _ => {},
            }
        }
    }
}

/// Taking an event into a reduced batch leaves the batch reduced.
pub proof fn lemma_absorb_keeps_settled(pending: Seq<Change>, event: Change)
    requires
        settled(pending),
    ensures
        settled(absorb(pending, event)),
{
    let grown = pending.push(event);
    assert(grown.take(pending.len() as int) =~= pending);
    match event {
        Change::Created(_) => lemma_push_settled(pending, event),
        Change::Renamed(_, _) => lemma_push_settled(pending, event),
        Change::Modified(path) => {
            let before = latest(pending, path);
            if !(before == Some(Change::Created(path)) || before == Some(
                Change::Modified(path),
            )) {
                lemma_push_settled(pending, event);
            }
        },
        Change::Removed(path) => {
            let before = latest(pending, path);
            if before == Some(Change::Created(path)) {
                lemma_cancel_settled(pending, path);
            } else if before == Some(Change::Removed(path)) {
            } else {
                lemma_push_settled(pending, event);
            }
        },
    }
}

/// The batch that a burst is reduced to is reduced: it holds no write behind
/// a pending creation or write of its path, and no removal behind a pending
/// creation or removal.
pub proof fn lemma_coalesced_is_settled(raw: Seq<Change>)
    ensures
        settled(coalesced(raw)),
    decreases raw.len(),
{
    if raw.len() > 0 {
        lemma_coalesced_is_settled(raw.drop_last());
        lemma_absorb_keeps_settled(coalesced(raw.drop_last()), raw.last());
    }
}

/// Holds the events of a burst until the quiescence window has passed.
///
/// Times are readings of a clock that does not go back, in milliseconds.
pub struct Debouncer {
    window: u64,
    opened: Option<u64>,
    pending: Vec<ChangeEvent>,
}

/// A debouncer as contracts see it.
pub struct DebouncerView {
    /// The length of the quiescence window.
    pub window: u64,
    /// When the first event of the burst arrived; `None` between bursts.
    pub opened: Option<u64>,
    /// The reduced batch so far.
    pub pending: Seq<Change>,
}

impl DebouncerView {
    /// Whether the window of the burst has passed at `now`.
    pub open spec fn due(self, now: u64) -> bool {
        self.opened matches Some(since) && now >= since && now - since >= self.window
    }

    /// The debouncer between bursts.
    pub open spec fn rested(self) -> DebouncerView {
        DebouncerView { window: self.window, opened: None, pending: Seq::empty() }
    }

    /// The debouncer once `event` has arrived at `now`.
    pub open spec fn offered(self, event: Change, now: u64) -> DebouncerView {
        DebouncerView {
            window: self.window,
            opened: if self.opened is Some {
                self.opened
            } else {
                Some(now)
            },
            pending: absorb(self.pending, event),
        }
    }

    /// When the batch is due: the window after the first event, or the last
    /// moment that the clock can show.
    pub open spec fn deadline(self) -> Option<u64> {
        match self.opened {
            Some(since) => Some(
                if since + self.window > u64::MAX {
                    u64::MAX
                } else {
                    (since + self.window) as u64
                },
            ),
            None => None,
        }
    }
}

impl View for Debouncer {
    type V = DebouncerView;

    closed spec fn view(&self) -> DebouncerView {
        DebouncerView {
            window: self.window,
            opened: self.opened,
            pending: changes(self.pending@),
        }
    }
}

impl Debouncer {
    /// A debouncer between bursts, with a window of `window` milliseconds.
    pub fn new(window: u64) -> (debouncer: Debouncer)
        ensures
            debouncer@ == (DebouncerView { window, opened: None, pending: Seq::empty() }),
    {
        let debouncer = Debouncer { window, opened: None, pending: Vec::new() };
        assert(changes(debouncer.pending@) =~= Seq::<Change>::empty());
        debouncer
    }

    /// Takes in an event that arrived at `now`. The first event of a burst
    /// opens the window.
    pub fn offer(&mut self, event: ChangeEvent, now: u64)
        ensures
            final(self)@ == old(self)@.offered(event@, now),
    {
        if self.opened.is_none() {
            self.opened = Some(now);
        }
        absorb_event(&mut self.pending, event);
    }

    /// When the batch is due, if a burst is under way.
    pub fn deadline(&self) -> (at: Option<u64>)
        ensures
            at == self@.deadline(),
    {
        match self.opened {
            Some(since) => {
                if since > u64::MAX - self.window {
                    Some(u64::MAX)
                } else {
                    Some(since + self.window)
                }
            },
            None => None,
        }
    }

    /// Hands out the batch once the window has passed. Before that nothing
    /// changes. A burst whose events have all cancelled ends without a batch.
    pub fn release(&mut self, now: u64) -> (batch: Option<Vec<ChangeEvent>>)
        ensures
            final(self)@ == if old(self)@.due(now) {
                old(self)@.rested()
            } else {
                old(self)@
            },
            batch is Some <==> old(self)@.due(now) && old(self)@.pending.len() > 0,
            batch matches Some(events) ==> changes(events@) == old(self)@.pending,
    {
        match self.opened {
            Some(since) => {
                if now >= since && now - since >= self.window {
                    let mut events: Vec<ChangeEvent> = Vec::new();
                    core::mem::swap(&mut self.pending, &mut events);
                    self.opened = None;
                    assert(changes(self.pending@) =~= Seq::<Change>::empty());
                    if events.len() > 0 {
                        Some(events)
                    } else {
                        None
                    }
                } else {
                    None
                }
            },
            None => None,
        }
    }
}

} // verus!
