//! What is read from a store is what lies in it.

use vstd::prelude::*;

use crate::error::ErrorView;
use crate::fit::goes_on;
use crate::laws::in_order;
use crate::listing::{
    first_of, keys_of, lists_keys, ordered, text_before, text_before_total, text_before_transitive,
};
use crate::model::{Clock, Keyed, ScopedEntryView};
use crate::op::{EffectView, EntryQueryView, EntryView, ItemView, PageView, Vis};
use crate::store::{RunCommitView, RunEvent};
use crate::store_laws::lemma_filter_contains;
use crate::store_view::{page_of, StoreView};

verus! {

/// Whether a query asks for an entry: it is of the session, after the place, and of the thread, the
/// kind and the visibility that the query names.
pub open spec fn asked_for(scoped: ScopedEntryView, query: EntryQueryView) -> bool {
    let entry = scoped.entry;
    &&& scoped.scope == query.scope && entry.session_id == query.session_id
    &&& query.after_seq < entry.seq
    &&& query.thread_id is None || query.thread_id == Some(entry.thread_id)
    &&& query.kind is None || query.kind == Some(entry.kind)
    &&& query.vis is None || query.vis == Some(entry.vis)
}

/// Whether values are listed by their keys: the first of a run, up to a limit.
pub open spec fn listed<T>(
    all: Keyed<T>,
    run: Seq<char>,
    limit: nat,
    values: Seq<T>,
    keys: Seq<Seq<char>>,
) -> bool {
    &&& keys.len() == values.len() && values.len() <= limit
    &&& forall|i: int|
        0 <= i < keys.len() ==> all.contains_key((run, #[trigger] keys[i])) && values[i] == all[(
            run,
            keys[i],
        )]
    &&& forall|i: int, j: int|
        0 <= i < j < keys.len() ==> text_before(#[trigger] keys[i], #[trigger] keys[j])
    &&& forall|key: Seq<char>| #[trigger]
        all.contains_key((run, key)) && !keys.contains(key) ==> keys.len() == limit && forall|i: int|
            0 <= i < keys.len() ==> text_before(#[trigger] keys[i], key)
}

/// A page holds the first of a list, as many as it may, and says where the next begins just where
/// there is more.
pub proof fn pages_hold_the_first<T>(all: Seq<T>, limit: nat, place: spec_fn(T) -> int)
    requires
        limit > 0,
    ensures
        ({
            let page = page_of(all, limit, place);
            &&& page.items.is_prefix_of(all)
            &&& page.items.len() <= limit
            &&& page.items.len() < limit ==> page.items == all
            &&& page.next is Some <==> page.items.len() < all.len()
            &&& page.next matches Some(next) ==> next == place(page.items.last())
        }),
{
    assert(all.take(all.len() as int) =~= all);
}

proof fn lemma_insert(keys: Seq<Seq<char>>, key: Seq<char>) -> (more: Seq<Seq<char>>)
    requires
        ordered(keys),
        !keys.contains(key),
    ensures
        ordered(more),
        forall|other: Seq<char>| #[trigger]
            more.contains(other) <==> keys.contains(other) || other == key,
    decreases keys.len(),
{
    if keys.len() == 0 {
        let more = seq![key];
        assert(more[0] == key);
        more
    } else {
        let last = keys.last();
        assert(keys[keys.len() - 1] == last);
        text_before_total(last, key);
        if text_before(last, key) {
            let more = keys.push(key);
            assert forall|i: int, j: int| 0 <= i < j < more.len() implies text_before(
                #[trigger] more[i],
                #[trigger] more[j],
            ) by {
                if j == keys.len() && i < keys.len() - 1 {
                    assert(text_before(keys[i], keys[keys.len() - 1]));
                    text_before_transitive(keys[i], last, key);
                }
            }
            assert forall|other: Seq<char>| #[trigger] more.contains(other) <==> keys.contains(other)
                || other == key by {
                if keys.contains(other) {
                    assert(more[keys.index_of(other)] == other);
                }
                assert(more[keys.len() as int] == key);
            }
            more
        } else {
            let fewer = keys.drop_last();
            assert forall|i: int, j: int| 0 <= i < j < fewer.len() implies text_before(
                #[trigger] fewer[i],
                #[trigger] fewer[j],
            ) by {
                assert(text_before(keys[i], keys[j]));
            }
            if fewer.contains(key) {
                assert(keys[fewer.index_of(key)] == key);
            }
            let some = lemma_insert(fewer, key);
            let more = some.push(last);
            assert forall|i: int, j: int| 0 <= i < j < more.len() implies text_before(
                #[trigger] more[i],
                #[trigger] more[j],
            ) by {
                if j == some.len() {
                    assert(some.contains(some[i]));
                    if fewer.contains(some[i]) {
                        let k = fewer.index_of(some[i]);
                        assert(text_before(keys[k], keys[keys.len() - 1]));
                    }
                }
            }
            assert forall|other: Seq<char>| #[trigger] more.contains(other) <==> keys.contains(other)
                || other == key by {
                if some.contains(other) {
                    assert(more[some.index_of(other)] == other);
                    if fewer.contains(other) {
                        assert(keys[fewer.index_of(other)] == other);
                    }
                }
                if keys.contains(other) {
                    let k = keys.index_of(other);
                    if k < fewer.len() {
                        assert(fewer[k] == other);
                        assert(some.contains(other));
                    }
                }
                if other == key {
                    assert(some.contains(key));
                }
                assert(more[some.len() as int] == last);
                if more.contains(other) {
                    let k = more.index_of(other);
                    if k < some.len() {
                        assert(some[k] == other);
                        assert(some.contains(other));
                    }
                }
            }
            more
        }
    }
}

proof fn lemma_listed(places: Set<(Seq<char>, Seq<char>)>, run: Seq<char>) -> (keys: Seq<Seq<char>>)
    requires
        places.finite(),
    ensures
        ordered(keys),
        forall|key: Seq<char>| #[trigger] keys.contains(key) <==> places.contains((run, key)),
    decreases places.len(),
{
    if places.len() == 0 {
        Seq::empty()
    } else {
        let place = places.choose();
        let keys = lemma_listed(places.remove(place), run);
        if place.0 == run {
            lemma_insert(keys, place.1)
        } else {
            keys
        }
    }
}

/// The values of a run are listed in the order of their keys.
pub proof fn values_are_listed<T>(all: Keyed<T>, run: Seq<char>, limit: nat)
    requires
        all.dom().finite(),
    ensures
        exists|keys: Seq<Seq<char>>| #[trigger] listed(
            all,
            run,
            limit,
            first_of(all, run, limit),
            keys,
        ),
{
    let found = lemma_listed(all.dom(), run);
    assert(lists_keys(found, all, run));
    let keys = keys_of(all, run);
    assert(lists_keys(keys, all, run));
    let values = first_of(all, run, limit);
    let some = keys.take(values.len() as int);
    assert forall|i: int| 0 <= i < some.len() implies all.contains_key((run, #[trigger] some[i]))
        && values[i] == all[(run, some[i])] by {
        assert(keys.contains(keys[i]));
    }
    assert forall|key: Seq<char>| #[trigger]
        all.contains_key((run, key)) && !some.contains(key) implies some.len() == limit && forall|
        i: int,
    |
        0 <= i < some.len() ==> text_before(#[trigger] some[i], key) by {
        assert(keys.contains(key));
        let k = keys.index_of(key);
        if k < some.len() {
            assert(some[k] == key);
        }
        assert forall|i: int| 0 <= i < some.len() implies text_before(
            #[trigger] some[i],
            key,
        ) by {
            assert(text_before(keys[i], keys[k]));
        }
    }
    assert(listed(all, run, limit, values, some));
}

impl<E: RunEvent, D> StoreView<E, D> {
    /// Looking a run up tells what is stored of it, and a run of another scope is not found.
    pub proof fn lookups_tell_what_is_stored(self, run: Seq<char>, scope: Seq<char>)
        requires
            self.inv(),
        ensures
            ({
                let found = self.runs[run];
                let there = self.runs.contains_key(run) && found.start.scope == scope;
                &&& there <==> self.lookup_run(run, scope) is Some
                &&& self.lookup_run(run, scope) matches Some(lookup) ==> {
                    &&& lookup.run_id == run
                    &&& lookup.session_id == found.start.session_id
                    &&& lookup.thread_id == found.start.thread_id
                    &&& lookup.status == found.status
                    &&& lookup.finish_reason == found.finish_reason
                    &&& lookup.cancel_requested == found.cancel_requested
                    &&& lookup.owner == match found.lease {
                        Some(lease) => Some(lease.owner),
                        None => None,
                    }
                }
                &&& self.terminal_event(run, scope) == if there && !(found.status is Running) {
                    Some(found.events.last())
                } else {
                    None
                }
            }),
    {
        if self.runs.contains_key(run) {
            assert(self.runs[run].sound());
        }
    }

    /// A new store holds no session, no run, and nothing of any run or thread.
    pub proof fn new_stores_are_empty(
        run: Seq<char>,
        key: Seq<char>,
        place: (Seq<char>, Seq<char>, Seq<char>),
    )
        ensures
            ({
                let store = Self::empty();
                &&& !store.runs.contains_key(run) && !store.sessions.contains_key(run)
                &&& !store.thread_leases.contains_key(run) && !store.checkpoints.contains_key(run)
                &&& !store.idempotency.contains_key(place)
                &&& !store.effects.contains_key((run, key)) && !store.items.contains_key((run, key))
                &&& store.entries.len() == 0 && store.order.len() == 0 && store.next_session == 0
                &&& store.inv()
            }),
    {
        Self::empty_is_sound();
    }

    /// What a client added when a run ended, and the checkpoint of a thread, are read as they are
    /// stored.
    pub proof fn ends_and_checkpoints_are_read(self, run: Seq<char>, thread: Seq<char>)
        ensures
            self.finish_data(run) is Some <==> self.runs.contains_key(run)
                && self.runs[run].finish_data is Some,
            self.runs.contains_key(run) ==> self.finish_data(run) == self.runs[run].finish_data,
            self.load_checkpoint(thread) is Some <==> self.checkpoints.contains_key(thread),
            self.load_checkpoint(thread) matches Some(record) ==> record
                == self.checkpoints[thread],
    {
    }

    /// A checkpoint that was committed is read back as it was, whatever was committed with it, and
    /// those of the other threads as they were.
    pub proof fn committed_checkpoints_read_back(
        self,
        commit: RunCommitView<E, D>,
        clock: Clock,
        other: Seq<char>,
    )
        requires
            self.inv(),
            goes_on(self, commit.run_id, commit.scope),
            self.commit_run(commit, clock).1 is Ok,
        ensures
            commit.checkpoint matches Some(checkpoint) ==> self.commit_run(
                commit,
                clock,
            ).0.load_checkpoint(checkpoint.thread_id) == Some(checkpoint.record),
            (commit.checkpoint matches Some(checkpoint) ==> checkpoint.thread_id != other)
                ==> self.commit_run(commit, clock).0.load_checkpoint(other) == self.load_checkpoint(
                other,
            ),
    {
    }

    /// A run is found by the client's key that it was started under, in its scope and session.
    pub proof fn runs_are_found_by_their_key(
        self,
        scope: Seq<char>,
        session: Seq<char>,
        key: Seq<char>,
    )
        requires
            self.inv(),
        ensures
            self.find_idempotent_run(scope, session, key) is Some
                <==> self.idempotency.contains_key((scope, session, key)),
            self.find_idempotent_run(scope, session, key) matches Some(lookup) ==> lookup.run_id
                == self.idempotency[(scope, session, key)] && self.lookup_run(lookup.run_id, scope)
                == Some(lookup) && self.runs[lookup.run_id].start.client_run_key == Some(key)
                && lookup.session_id == session,
    {
    }

    /// The events of a run after a place are listed, all of them and in order, a page at a time.
    pub proof fn events_are_listed(
        self,
        run: Seq<char>,
        scope: Seq<char>,
        after: int,
        limit: nat,
        event: E,
    )
        requires
            self.inv(),
        ensures
            self.events_after(run, scope, after).contains(event) <==> self.runs.contains_key(run)
                && self.runs[run].start.scope == scope && self.runs[run].events.contains(event)
                && event.place() > after,
            in_order(self.events_after(run, scope, after)),
            limit == 0 ==> self.list_events(run, scope, after, limit) == Err::<
                PageView<E>,
                ErrorView,
            >(ErrorView::InvalidPageLimit),
            limit > 0 ==> (self.list_events(run, scope, after, limit) matches Ok(page)
                && page.items.is_prefix_of(self.events_after(run, scope, after)) && page.items.len()
                <= limit && (page.items.len() < limit ==> page.items == self.events_after(
                run,
                scope,
                after,
            )) && (page.next is Some <==> page.items.len() < self.events_after(
                run,
                scope,
                after,
            ).len()) && (page.next is Some ==> page.next == Some(page.items.last().place()))),
    {
        self.events_are_in_order(run, scope, after);
        if self.visible(run, scope) is Some {
            lemma_filter_contains(
                self.runs[run].events,
                |event: E| event.place() > after,
                event,
            );
        }
        if limit > 0 {
            pages_hold_the_first(
                self.events_after(run, scope, after),
                limit,
                |event: E| event.place(),
            );
        }
    }

    /// The entries that are listed are those that the query asks for, in the order of their places,
    /// a page at a time.
    pub proof fn entries_are_listed(self, query: EntryQueryView, entry: EntryView)
        requires
            self.inv(),
        ensures
            self.entries_for(query).contains(entry) <==> exists|k: int|
                0 <= k < self.entries.len() && asked_for(#[trigger] self.entries[k], query)
                    && self.entries[k].entry == entry,
            query.limit == 0 ==> self.list_entries(query) == Err::<PageView<EntryView>, ErrorView>(
                ErrorView::InvalidPageLimit,
            ),
            query.limit > 0 ==> (self.list_entries(query) matches Ok(page)
                && page.items.is_prefix_of(self.entries_for(query)) && page.items.len()
                <= query.limit && (page.items.len() < query.limit ==> page.items
                == self.entries_for(query)) && (page.next is Some <==> page.items.len()
                < self.entries_for(query).len()) && (page.next is Some ==> page.next == Some(
                page.items.last().seq,
            ))),
    {
        let keep = |scoped: ScopedEntryView| scoped.matches(query);
        let kept = self.entries.filter(keep);
        let found = self.entries_for(query);
        if found.contains(entry) {
            let i = found.index_of(entry);
            assert(found[i] == kept[i].entry);
            assert(kept.contains(kept[i]));
            lemma_filter_contains(self.entries, keep, kept[i]);
            let k = self.entries.index_of(kept[i]);
            assert(self.entries[k] == kept[i]);
            assert(asked_for(self.entries[k], query));
        }
        if exists|k: int|
            0 <= k < self.entries.len() && asked_for(#[trigger] self.entries[k], query)
                && self.entries[k].entry == entry {
            let k = choose|k: int|
                0 <= k < self.entries.len() && asked_for(#[trigger] self.entries[k], query)
                    && self.entries[k].entry == entry;
            assert(self.entries.contains(self.entries[k]));
            lemma_filter_contains(self.entries, keep, self.entries[k]);
            let i = kept.index_of(self.entries[k]);
            assert(kept[i] == self.entries[k]);
            assert(found[i] == entry);
        }
        if query.limit > 0 {
            pages_hold_the_first(found, query.limit, |entry: EntryView| entry.seq);
        }
    }

    /// The latest entry is the one with the last place of those of its kind, and of the thread and
    /// the visibility that are asked for.
    pub proof fn latest_entries_are_last(
        self,
        scope: Seq<char>,
        session: Seq<char>,
        thread: Option<Seq<char>>,
        kind: Seq<char>,
        vis: Option<Vis>,
        k: int,
    )
        requires
            self.inv(),
            0 <= k < self.entries.len(),
            self.entries[k].scope == scope,
            self.entries[k].entry.session_id == session,
            thread is None || thread == Some(self.entries[k].entry.thread_id),
            self.entries[k].entry.kind == kind,
            vis is None || vis == Some(self.entries[k].entry.vis),
        ensures
            self.latest_entry(scope, session, thread, kind, vis) matches Some(latest) && {
                &&& self.entries[k].entry.seq <= latest.seq
                &&& latest.session_id == session && latest.kind == kind
                &&& thread is None || thread == Some(latest.thread_id)
                &&& vis is None || vis == Some(latest.vis)
                &&& exists|j: int|
                    0 <= j < self.entries.len() && (#[trigger] self.entries[j]).scope == scope
                        && self.entries[j].entry == latest
            },
    {
        let query = EntryQueryView {
            scope,
            session_id: session,
            thread_id: thread,
            kind: Some(kind),
            vis,
            after_seq: 0,
            limit: usize::MAX as nat,
        };
        let found = self.entries_for(query);
        let entry = self.entries[k].entry;
        assert(asked_for(self.entries[k], query));
        self.entries_are_listed(query, entry);
        let i = found.index_of(entry);
        assert(found[i] == entry);
        self.entries_are_listed(query, found.last());
        assert(found.contains(found.last()));
        if i < found.len() - 1 {
            self.entries_are_in_order(query, i, found.len() - 1);
        }
    }

    /// Where nothing in the session is asked for, there is no latest entry.
    pub proof fn no_entry_no_latest(
        self,
        scope: Seq<char>,
        session: Seq<char>,
        thread: Option<Seq<char>>,
        kind: Seq<char>,
        vis: Option<Vis>,
    )
        requires
            self.inv(),
            forall|k: int|
                0 <= k < self.entries.len() ==> (#[trigger] self.entries[k]).scope != scope
                    || self.entries[k].entry.session_id != session || self.entries[k].entry.kind
                    != kind || (thread is Some && thread != Some(self.entries[k].entry.thread_id))
                    || (vis is Some && vis != Some(self.entries[k].entry.vis)),
        ensures
            self.latest_entry(scope, session, thread, kind, vis) is None,
    {
        let query = EntryQueryView {
            scope,
            session_id: session,
            thread_id: thread,
            kind: Some(kind),
            vis,
            after_seq: 0,
            limit: usize::MAX as nat,
        };
        let found = self.entries_for(query);
        if found.len() > 0 {
            self.entries_are_listed(query, found[0]);
            assert(found.contains(found[0]));
        }
    }

    /// The items of a run are listed in the order of their keys, and those of a run of another scope
    /// are not.
    pub proof fn items_are_listed(self, run: Seq<char>, scope: Seq<char>, limit: nat)
        requires
            self.items.dom().finite(),
        ensures
            limit == 0 ==> self.list_items(run, scope, limit) == Err::<Seq<ItemView>, ErrorView>(
                ErrorView::InvalidPageLimit,
            ),
            limit > 0 ==> self.list_items(run, scope, limit) is Ok,
            limit > 0 && !(self.runs.contains_key(run) && self.runs[run].start.scope == scope)
                ==> self.list_items(run, scope, limit)->Ok_0.len() == 0,
            limit > 0 && self.runs.contains_key(run) && self.runs[run].start.scope == scope
                ==> exists|keys: Seq<Seq<char>>| #[trigger]
                listed(self.items, run, limit, self.list_items(run, scope, limit)->Ok_0, keys),
    {
        values_are_listed(self.items, run, limit);
        let all = first_of(self.items, run, limit);
        let keys = choose|keys: Seq<Seq<char>>| #[trigger]
            listed(self.items, run, limit, all, keys);
        if limit > 0 && self.visible(run, scope) is Some {
            assert(listed(
                self.items,
                run,
                limit,
                self.list_items(run, scope, limit)->Ok_0,
                keys,
            ));
        }
    }

    /// The effects of a run are listed in the order of their keys, and those of a run of another
    /// scope are not.
    pub proof fn effects_are_listed(self, run: Seq<char>, scope: Seq<char>, limit: nat)
        requires
            self.effects.dom().finite(),
        ensures
            limit == 0 ==> self.list_effects(run, scope, limit) == Err::<
                Seq<EffectView>,
                ErrorView,
            >(ErrorView::InvalidPageLimit),
            limit > 0 ==> self.list_effects(run, scope, limit) is Ok,
            limit > 0 && !(self.runs.contains_key(run) && self.runs[run].start.scope == scope)
                ==> self.list_effects(run, scope, limit)->Ok_0.len() == 0,
            limit > 0 && self.runs.contains_key(run) && self.runs[run].start.scope == scope
                ==> exists|keys: Seq<Seq<char>>| #[trigger]
                listed(self.effects, run, limit, self.list_effects(run, scope, limit)->Ok_0, keys),
    {
        values_are_listed(self.effects, run, limit);
        let all = first_of(self.effects, run, limit);
        let keys = choose|keys: Seq<Seq<char>>| #[trigger]
            listed(self.effects, run, limit, all, keys);
        if limit > 0 && self.visible(run, scope) is Some {
            assert(listed(
                self.effects,
                run,
                limit,
                self.list_effects(run, scope, limit)->Ok_0,
                keys,
            ));
        }
    }
}

/// What is asked of entries can be asked in any order.
pub proof fn queries_are_built_in_any_order(
    query: EntryQueryView,
    thread: Seq<char>,
    kind: Seq<char>,
    vis: Vis,
    place: int,
)
    ensures
        query.of_thread(thread).of_kind(kind) == query.of_kind(kind).of_thread(thread),
        query.of_thread(thread).of_vis(vis) == query.of_vis(vis).of_thread(thread),
        query.of_thread(thread).from_place(place) == query.from_place(place).of_thread(thread),
        query.of_kind(kind).of_vis(vis) == query.of_vis(vis).of_kind(kind),
        query.of_kind(kind).from_place(place) == query.from_place(place).of_kind(kind),
        query.of_vis(vis).from_place(place) == query.from_place(place).of_vis(vis),
        query.of_thread(thread).scope == query.scope && query.of_kind(kind).scope == query.scope
            && query.of_vis(vis).scope == query.scope && query.from_place(place).scope
            == query.scope,
        query.of_thread(thread).session_id == query.session_id && query.of_kind(kind).session_id
            == query.session_id && query.of_vis(vis).session_id == query.session_id
            && query.from_place(place).session_id == query.session_id,
{
}

/// A query asks for fewer entries with each thing that is asked of them, and without any for all of
/// the session.
pub proof fn queries_ask_for_less(
    scoped: ScopedEntryView,
    query: EntryQueryView,
    thread: Seq<char>,
    kind: Seq<char>,
    vis: Vis,
    place: int,
)
    requires
        query.thread_id is None && query.kind is None && query.vis is None,
    ensures
        ({
            let all = EntryQueryView::all(query.scope, query.session_id, query.limit);
            asked_for(scoped, all) <==> scoped.scope == query.scope && scoped.entry.session_id
                == query.session_id && scoped.entry.seq > 0
        }),
        EntryQueryView::all(query.scope, query.session_id, query.limit).limit == query.limit,
        asked_for(scoped, query.of_thread(thread)) <==> asked_for(scoped, query)
            && scoped.entry.thread_id == thread,
        asked_for(scoped, query.of_kind(kind)) <==> asked_for(scoped, query) && scoped.entry.kind
            == kind,
        asked_for(scoped, query.of_vis(vis)) <==> asked_for(scoped, query) && scoped.entry.vis
            == vis,
        asked_for(scoped, query.of_thread(thread).of_kind(kind).of_vis(vis)) <==> asked_for(
            scoped,
            query,
        ) && scoped.entry.thread_id == thread && scoped.entry.kind == kind && scoped.entry.vis
            == vis,
        query.after_seq <= place ==> (asked_for(scoped, query.from_place(place)) <==> asked_for(
            scoped,
            query,
        ) && scoped.entry.seq > place),
        query.of_thread(thread).limit == query.limit && query.of_kind(kind).limit == query.limit
            && query.of_vis(vis).limit == query.limit && query.from_place(place).limit
            == query.limit,
{
}

} // verus!
