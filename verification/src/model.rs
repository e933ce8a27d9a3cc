//! The mathematical model of a run store: what each operation does to it and answers.

use vstd::prelude::*;

use crate::error::{invalid, ErrorView};
use crate::op::{
    EffectUpdateView, EffectView, EntryQueryView, EntryView, EntryWriteView, ItemView,
    ItemWriteView,
};
use crate::store::{
    last_place, LeaseClaimView, Nanos, RunCommitView, RunEvent, RunLookupView, RunStartView,
    RunStatus,
};

verus! {

/// The time at which an operation takes place.
#[derive(Debug, Clone, Copy)]
pub struct Clock {
    /// The time that leases are measured by: nanoseconds from a fixed point, never running back.
    pub now: Nanos,
    /// The time of day, in milliseconds since the epoch.
    pub wall_ms: i64,
}

/// The first failure among the checks before `n`.
pub open spec fn first_failure(n: nat, check: spec_fn(int) -> Option<ErrorView>) -> Option<ErrorView>
    decreases n,
{
    if n == 0 {
        None
    } else {
        match first_failure((n - 1) as nat, check) {
            Some(error) => Some(error),
            None => check(n - 1),
        }
    }
}

/// Where all checks before one pass and that one fails, its failure is the first of all.
pub proof fn lemma_first_failure(n: nat, check: spec_fn(int) -> Option<ErrorView>, i: nat)
    requires
        i < n,
        first_failure(i, check) is None,
        check(i as int) is Some,
    ensures
        first_failure(n, check) == check(i as int),
    decreases n,
{
    if i < n - 1 {
        lemma_first_failure((n - 1) as nat, check, i);
    }
}

/// A lease on a run.
pub struct HeldLeaseView {
    pub owner: Seq<char>,
    pub id: Seq<char>,
    pub until: nat,
}

/// A claim to a thread, made by a run with a lease.
pub struct ThreadLeaseView {
    pub run: Seq<char>,
    pub owner: Seq<char>,
    pub id: Seq<char>,
    pub until: nat,
}

/// The lease that a claim gives at a time.
pub open spec fn granted(claim: LeaseClaimView, now: nat) -> HeldLeaseView {
    HeldLeaseView { owner: claim.owner, id: claim.id, until: now + claim.ttl }
}

/// A run in a store.
#[verifier::ext_equal]
pub struct RunView<E, D> {
    pub start: RunStartView,
    pub status: RunStatus,
    pub finish_reason: Option<Seq<char>>,
    pub cancel_requested: bool,
    pub finish_data: Option<D>,
    pub terminal_event: Option<E>,
    pub events: Seq<E>,
    pub lease: Option<HeldLeaseView>,
}

impl<E: RunEvent, D> RunView<E, D> {
    /// What the store tells of the run.
    pub open spec fn lookup(self) -> RunLookupView {
        RunLookupView {
            run_id: self.start.run_id,
            session_id: self.start.session_id,
            thread_id: self.start.thread_id,
            status: self.status,
            finish_reason: self.finish_reason,
            cancel_requested: self.cancel_requested,
            owner: self.owner(),
        }
    }

    /// The worker that holds the run's lease.
    pub open spec fn owner(self) -> Option<Seq<char>> {
        match self.lease {
            Some(lease) => Some(lease.owner),
            None => None,
        }
    }

    /// Whether one may write the run under a lease: it has none, or this one, and in time.
    pub open spec fn held(self, lease: Option<Seq<char>>, now: nat) -> bool {
        match self.lease {
            Some(active) => lease == Some(active.id) && now < active.until,
            None => true,
        }
    }

    /// Whether the run goes on under a lease that has run out.
    pub open spec fn expired(self, now: nat) -> bool {
        self.status is Running && match self.lease {
            Some(active) => active.until <= now,
            None => false,
        }
    }

    /// The place of the event that comes next.
    pub open spec fn next_place(self) -> int {
        match last_place(self.events) {
            Some(last) => last + 1,
            None => 1,
        }
    }

    /// What holds of every run: its events are its own, their places grow from one, and the run has
    /// ended exactly if its last event ends it.
    pub open spec fn sound(self) -> bool {
        &&& forall|i: int|
            0 <= i < self.events.len() ==> (#[trigger] self.events[i]).run() == self.start.run_id
                && self.events[i].session() == self.start.session_id && self.events[i].place() > 0
        &&& forall|i: int, j: int|
            0 <= i < j < self.events.len() ==> (#[trigger] self.events[i]).place() < (
            #[trigger] self.events[j]).place()
        &&& !ends_early(self.events)
        &&& if self.status is Running {
            &&& !ends(self.events)
            &&& self.terminal_event is None
            &&& self.finish_reason is None
        } else {
            &&& self.events.len() > 0
            &&& self.events.last().terminal()
            &&& self.terminal_event == Some(self.events.last())
            &&& self.finish_reason is Some
            &&& self.lease is None
        }
    }

    /// The run has ended.
    pub open spec fn ended(
        self,
        status: RunStatus,
        reason: Seq<char>,
        data: D,
        events: Seq<E>,
    ) -> RunView<E, D> {
        RunView {
            status,
            finish_reason: Some(reason),
            finish_data: Some(data),
            terminal_event: Some(events.last()),
            events: self.events + events,
            lease: None,
            ..self
        }
    }
}

/// Why an event does not belong to a run.
pub open spec fn event_refusal<E: RunEvent>(
    run: Seq<char>,
    session: Seq<char>,
    event: E,
) -> Option<ErrorView> {
    if event.run() != run {
        Some(invalid("event run_id does not match target run"@))
    } else if event.session() != session {
        Some(invalid("event session_id does not match target run"@))
    } else {
        None
    }
}

/// Why an event cannot be committed to a run, whatever the run holds.
pub open spec fn committed_event_refusal<E: RunEvent>(
    run: Seq<char>,
    session: Seq<char>,
    event: E,
) -> Option<ErrorView> {
    match event_refusal(run, session, event) {
        Some(error) => Some(error),
        None => if event.place() <= 0 {
            Some(invalid("event seq must be positive"@))
        } else {
            None
        },
    }
}

/// Whether an event before the last ends its run.
pub open spec fn ends_early<E: RunEvent>(events: Seq<E>) -> bool {
    exists|i: int| 0 <= i < events.len() - 1 && (#[trigger] events[i]).terminal()
}

/// Whether an event ends its run.
pub open spec fn ends<E: RunEvent>(events: Seq<E>) -> bool {
    exists|i: int| 0 <= i < events.len() && (#[trigger] events[i]).terminal()
}

/// Why a commit is refused, whatever the store holds.
pub open spec fn commit_refusal<E: RunEvent, D>(commit: RunCommitView<E, D>) -> Option<ErrorView> {
    if commit.events.len() == 0 && commit.effects.len() == 0 && commit.items.len() == 0
        && commit.entries.len() == 0 {
        Some(invalid("commit requires an event, effect, item, or entry"@))
    } else {
        match first_failure(
            commit.events.len(),
            |i: int| committed_event_refusal(commit.run_id, commit.session_id, commit.events[i]),
        ) {
            Some(error) => Some(error),
            None => match commit.finish {
                Some(finish) => if finish.run_id != commit.run_id || finish.session_id
                    != commit.session_id {
                    Some(invalid("finish target does not match committed run"@))
                } else if !finish.status.terminal() {
                    Some(invalid("finish_run requires a terminal status"@))
                } else if commit.events.len() == 0 {
                    Some(invalid("finish commit requires a terminal event"@))
                } else if !commit.events.last().terminal() {
                    Some(invalid("finish_run requires a terminal event"@))
                } else if ends_early(commit.events) {
                    Some(invalid("only the last commit event may be terminal"@))
                } else {
                    None
                },
                None => if ends(commit.events) {
                    Some(invalid("record_event does not accept terminal events"@))
                } else {
                    None
                },
            },
        }
    }
}

/// Why an event cannot follow a place.
pub open spec fn place_refusal(last: Option<int>, place: int) -> Option<ErrorView> {
    if place <= 0 {
        Some(invalid("event seq must be positive"@))
    } else if last matches Some(last) && place <= last {
        Some(invalid("event seq must increase monotonically"@))
    } else {
        None
    }
}

/// Why events cannot follow those of a run.
pub open spec fn sequence_refusal<E: RunEvent>(before: Seq<E>, events: Seq<E>) -> Option<ErrorView> {
    first_failure(
        events.len(),
        |i: int| place_refusal(last_place(before + events.take(i)), events[i].place()),
    )
}

/// An entry of a session, with the scope of the session.
pub struct ScopedEntryView {
    pub scope: Seq<char>,
    pub entry: EntryView,
}

impl ScopedEntryView {
    /// Whether the entry belongs to a session.
    pub open spec fn within(self, scope: Seq<char>, session: Seq<char>) -> bool {
        self.scope == scope && self.entry.session_id == session
    }

    /// Whether the entry lies under a key of a session.
    pub open spec fn under(self, scope: Seq<char>, session: Seq<char>, key: Seq<char>) -> bool {
        self.within(scope, session) && self.entry.key == key
    }

    /// Whether a query asks for the entry.
    pub open spec fn matches(self, query: EntryQueryView) -> bool {
        &&& self.within(query.scope, query.session_id)
        &&& self.entry.seq > query.after_seq
        &&& query.thread_id matches Some(thread) ==> self.entry.thread_id == thread
        &&& query.kind matches Some(kind) ==> self.entry.kind == kind
        &&& query.vis matches Some(vis) ==> self.entry.vis == vis
    }

    /// Whether the entry says what is to be written.
    pub open spec fn says(self, write: EntryWriteView) -> bool {
        self.entry.kind == write.kind && self.entry.vis == write.vis && self.entry.body
            == write.body
    }
}

/// The last place that a session's entries take.
pub open spec fn top_place(
    entries: Seq<ScopedEntryView>,
    scope: Seq<char>,
    session: Seq<char>,
) -> int
    decreases entries.len(),
{
    if entries.len() == 0 {
        0
    } else {
        let rest = top_place(entries.drop_last(), scope, session);
        let last = entries.last();
        if last.within(scope, session) && last.entry.seq > rest {
            last.entry.seq
        } else {
            rest
        }
    }
}

/// Whether so many more entries of a session can be numbered.
pub open spec fn numberable(
    entries: Seq<ScopedEntryView>,
    scope: Seq<char>,
    session: Seq<char>,
    count: nat,
) -> bool {
    count == 0 || top_place(entries, scope, session) + count <= i64::MAX
}

/// The entries of a session have different keys, and places that grow from one.
pub open spec fn entries_sound(entries: Seq<ScopedEntryView>) -> bool {
    &&& forall|i: int| 0 <= i < entries.len() ==> (#[trigger] entries[i]).entry.seq > 0
    &&& forall|i: int, j: int|
        0 <= i < j < entries.len() && (#[trigger] entries[i]).within(
            (#[trigger] entries[j]).scope,
            entries[j].entry.session_id,
        ) ==> entries[i].entry.key != entries[j].entry.key && entries[i].entry.seq
            < entries[j].entry.seq
}

/// Whether a session has an entry under a key.
pub open spec fn has_entry(
    entries: Seq<ScopedEntryView>,
    scope: Seq<char>,
    session: Seq<char>,
    key: Seq<char>,
) -> bool {
    exists|i: int| 0 <= i < entries.len() && (#[trigger] entries[i]).under(scope, session, key)
}

/// Why the entry at a place of a list cannot be recorded: its key stands before it in the list, or
/// was used for something else.
pub open spec fn entry_refusal(
    entries: Seq<ScopedEntryView>,
    scope: Seq<char>,
    session: Seq<char>,
    writes: Seq<EntryWriteView>,
    i: int,
) -> Option<ErrorView> {
    if (exists|j: int| 0 <= j < i && (#[trigger] writes[j]).key == writes[i].key) || (exists|j: int|
        0 <= j < entries.len() && (#[trigger] entries[j]).under(scope, session, writes[i].key)
            && !entries[j].says(writes[i])) {
        Some(ErrorView::EntryConflict)
    } else {
        None
    }
}

/// Why entries cannot be recorded.
pub open spec fn entries_refusal(
    entries: Seq<ScopedEntryView>,
    scope: Seq<char>,
    session: Seq<char>,
    writes: Seq<EntryWriteView>,
) -> Option<ErrorView> {
    first_failure(writes.len(), |i: int| entry_refusal(entries, scope, session, writes, i))
}

/// Who records entries, and when.
pub struct EntryOrigin {
    pub scope: Seq<char>,
    pub run_id: Seq<char>,
    pub session_id: Seq<char>,
    pub thread_id: Seq<char>,
    pub at: int,
}

/// The entries after one more is recorded: an entry that is there already is left as it is.
pub open spec fn with_entry(
    entries: Seq<ScopedEntryView>,
    origin: EntryOrigin,
    write: EntryWriteView,
) -> Seq<ScopedEntryView> {
    if has_entry(entries, origin.scope, origin.session_id, write.key) {
        entries
    } else {
        entries.push(
            ScopedEntryView {
                scope: origin.scope,
                entry: EntryView {
                    run_id: origin.run_id,
                    session_id: origin.session_id,
                    thread_id: origin.thread_id,
                    seq: top_place(entries, origin.scope, origin.session_id) + 1,
                    key: write.key,
                    kind: write.kind,
                    vis: write.vis,
                    body: write.body,
                    created_at: origin.at,
                    updated_at: origin.at,
                },
            },
        )
    }
}

/// The entries after some more are recorded, in order.
pub open spec fn with_entries(
    entries: Seq<ScopedEntryView>,
    origin: EntryOrigin,
    writes: Seq<EntryWriteView>,
) -> Seq<ScopedEntryView>
    decreases writes.len(),
{
    if writes.len() == 0 {
        entries
    } else {
        with_entry(with_entries(entries, origin, writes.drop_last()), origin, writes.last())
    }
}

/// Effects or items, under the run and the key.
pub type Keyed<T> = Map<(Seq<char>, Seq<char>), T>;

/// Why the update at a place of a list cannot be made.
pub open spec fn effect_refusal(
    effects: Keyed<EffectView>,
    run: Seq<char>,
    updates: Seq<EffectUpdateView>,
    i: int,
) -> Option<ErrorView> {
    let update = updates[i];
    if exists|j: int| 0 <= j < i && (#[trigger] updates[j]).key == update.key {
        Some(ErrorView::EffectConflict)
    } else if !effects.contains_key((run, update.key)) {
        Some(ErrorView::EffectNotFound)
    } else if update.status is Reserved || update.status is Started {
        Some(invalid("effect commit requires a terminal or unknown status"@))
    } else if effects[(run, update.key)].status is Done && (!(update.status is Done)
        || effects[(run, update.key)].result != update.result) {
        Some(ErrorView::EffectConflict)
    } else {
        None
    }
}

/// Why updates cannot be made.
pub open spec fn effects_refusal(
    effects: Keyed<EffectView>,
    run: Seq<char>,
    updates: Seq<EffectUpdateView>,
) -> Option<ErrorView> {
    first_failure(updates.len(), |i: int| effect_refusal(effects, run, updates, i))
}

/// The effects after an update: one that is done stays as it is.
pub open spec fn with_effect(
    effects: Keyed<EffectView>,
    run: Seq<char>,
    update: EffectUpdateView,
    at: int,
) -> Keyed<EffectView> {
    let effect = effects[(run, update.key)];
    if effect.status is Done && update.status is Done {
        effects
    } else {
        effects.insert(
            (run, update.key),
            EffectView {
                status: update.status,
                result: update.result,
                error_code: update.error_code,
                error_message: update.error_message,
                updated_at: at,
                ..effect
            },
        )
    }
}

/// The effects after some updates, in order.
pub open spec fn with_effects(
    effects: Keyed<EffectView>,
    run: Seq<char>,
    updates: Seq<EffectUpdateView>,
    at: int,
) -> Keyed<EffectView>
    decreases updates.len(),
{
    if updates.len() == 0 {
        effects
    } else {
        with_effect(with_effects(effects, run, updates.drop_last(), at), run, updates.last(), at)
    }
}

/// Why the item at a place of a list cannot be recorded.
pub open spec fn item_refusal(
    items: Keyed<ItemView>,
    run: Seq<char>,
    writes: Seq<ItemWriteView>,
    i: int,
) -> Option<ErrorView> {
    let write = writes[i];
    if exists|j: int| 0 <= j < i && (#[trigger] writes[j]).key == write.key {
        Some(ErrorView::ItemConflict)
    } else if items.contains_key((run, write.key)) && (items[(run, write.key)].kind != write.kind
        || items[(run, write.key)].body != write.body) {
        Some(ErrorView::ItemConflict)
    } else {
        None
    }
}

/// Why items cannot be recorded.
pub open spec fn items_refusal(
    items: Keyed<ItemView>,
    run: Seq<char>,
    writes: Seq<ItemWriteView>,
) -> Option<ErrorView> {
    first_failure(writes.len(), |i: int| item_refusal(items, run, writes, i))
}

/// The items after one more is recorded: an item that is there already is left as it is.
pub open spec fn with_item(
    items: Keyed<ItemView>,
    run: Seq<char>,
    write: ItemWriteView,
    at: int,
) -> Keyed<ItemView> {
    if items.contains_key((run, write.key)) {
        items
    } else {
        items.insert(
            (run, write.key),
            ItemView {
                run_id: run,
                key: write.key,
                kind: write.kind,
                body: write.body,
                created_at: at,
                updated_at: at,
            },
        )
    }
}

/// The items after some more are recorded, in order.
pub open spec fn with_items(
    items: Keyed<ItemView>,
    run: Seq<char>,
    writes: Seq<ItemWriteView>,
    at: int,
) -> Keyed<ItemView>
    decreases writes.len(),
{
    if writes.len() == 0 {
        items
    } else {
        with_item(with_items(items, run, writes.drop_last(), at), run, writes.last(), at)
    }
}

} // verus!
