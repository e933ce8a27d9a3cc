//! What is stored of effects, items and entries that were written: just what was written, under its
//! key, and nothing else.

use vstd::prelude::*;

use crate::fit::{effects_fit, entries_fit, items_fit};
use crate::model::{
    has_entry, top_place, with_effect, with_effects, with_entries, with_entry, with_item,
    with_items, EntryOrigin, Keyed, ScopedEntryView,
};
use crate::op::{
    EffectStatus, EffectUpdateView, EffectView, EntryWriteView, ItemView, ItemWriteView,
};
use crate::store_laws::lemma_top_place;

verus! {

/// Whether an effect is what an update made of it: it says what the update says, unless it was done
/// before, and is otherwise what it was.
pub open spec fn updated(
    before: EffectView,
    update: EffectUpdateView,
    at: int,
    after: EffectView,
) -> bool {
    &&& after.run_id == before.run_id && after.key == before.key && after.kind == before.kind
    &&& after.request == before.request && after.created_at == before.created_at
    &&& before.status == EffectStatus::Done ==> after == before
    &&& before.status != EffectStatus::Done ==> {
        &&& after.status == update.status
        &&& after.result == update.result
        &&& after.error_code == update.error_code
        &&& after.error_message == update.error_message
        &&& after.updated_at == at
    }
}

/// Whether effects are what updates of a run made of others.
pub open spec fn effects_written(
    before: Keyed<EffectView>,
    run: Seq<char>,
    updates: Seq<EffectUpdateView>,
    at: int,
    after: Keyed<EffectView>,
) -> bool {
    &&& after.dom() == before.dom()
    &&& forall|i: int|
        0 <= i < updates.len() ==> updated(
            before[(run, (#[trigger] updates[i]).key)],
            updates[i],
            at,
            after[(run, updates[i].key)],
        )
    &&& forall|other: Seq<char>, key: Seq<char>|
        (other != run || forall|i: int|
            0 <= i < updates.len() ==> (#[trigger] updates[i]).key != key) ==> #[trigger] after[(
            other,
            key,
        )] == before[(other, key)]
}

/// Whether items are those before and the ones that a run recorded.
pub open spec fn items_written(
    before: Keyed<ItemView>,
    run: Seq<char>,
    writes: Seq<ItemWriteView>,
    at: int,
    after: Keyed<ItemView>,
) -> bool {
    &&& forall|i: int|
        0 <= i < writes.len() ==> {
            let key = (run, (#[trigger] writes[i]).key);
            &&& after.contains_key(key)
            &&& after[key].kind == writes[i].kind && after[key].body == writes[i].body
            &&& before.contains_key(key) ==> after[key] == before[key]
            &&& !before.contains_key(key) ==> after[key].run_id == run && after[key].key
                == writes[i].key && after[key].created_at == at && after[key].updated_at == at
        }
    &&& forall|other: Seq<char>, key: Seq<char>|
        (other != run || forall|i: int|
            0 <= i < writes.len() ==> (#[trigger] writes[i]).key != key) ==> (
        #[trigger] after.contains_key((other, key)) <==> before.contains_key((other, key)))
            && after[(other, key)] == before[(other, key)]
}

/// Whether an entry of a session takes the place after the last, among those before it.
pub open spec fn next_in_line(entries: Seq<ScopedEntryView>, j: int) -> bool {
    let scope = entries[j].scope;
    let session = entries[j].entry.session_id;
    let seq = entries[j].entry.seq;
    &&& forall|k: int|
        0 <= k < j && (#[trigger] entries[k]).scope == scope && entries[k].entry.session_id
            == session ==> entries[k].entry.seq < seq
    &&& seq == 1 || exists|k: int|
        0 <= k < j && (#[trigger] entries[k]).scope == scope && entries[k].entry.session_id
            == session && entries[k].entry.seq == seq - 1
}

/// Whether a session has an entry under a key, among the first of some entries.
pub open spec fn known(
    entries: Seq<ScopedEntryView>,
    scope: Seq<char>,
    session: Seq<char>,
    key: Seq<char>,
) -> bool {
    exists|k: int|
        0 <= k < entries.len() && (#[trigger] entries[k]).scope == scope
            && entries[k].entry.session_id == session && entries[k].entry.key == key
}

/// Whether an entry is what someone wrote.
pub open spec fn entry_of(scoped: ScopedEntryView, origin: EntryOrigin, write: EntryWriteView) -> bool {
    &&& scoped.scope == origin.scope && scoped.entry.session_id == origin.session_id
    &&& scoped.entry.run_id == origin.run_id && scoped.entry.thread_id == origin.thread_id
    &&& scoped.entry.key == write.key && scoped.entry.kind == write.kind
    &&& scoped.entry.vis == write.vis && scoped.entry.body == write.body
    &&& scoped.entry.created_at == origin.at && scoped.entry.updated_at == origin.at
}

/// Whether entries are those before, and behind them the ones that someone recorded under new keys,
/// each in the next place of its session.
pub open spec fn entries_written(
    before: Seq<ScopedEntryView>,
    origin: EntryOrigin,
    writes: Seq<EntryWriteView>,
    after: Seq<ScopedEntryView>,
) -> bool {
    &&& before.len() <= after.len() && after.take(before.len() as int) == before
    &&& forall|i: int|
        0 <= i < writes.len() ==> #[trigger] known(
            after,
            origin.scope,
            origin.session_id,
            writes[i].key,
        )
    &&& forall|j: int|
        before.len() <= j < after.len() ==> {
            &&& next_in_line(after, j)
            &&& !known(before, origin.scope, origin.session_id, (#[trigger] after[j]).entry.key)
            &&& exists|i: int| 0 <= i < writes.len() && entry_of(after[j], origin, #[trigger] writes[i])
        }
}

/// Updates that fit are made, each to its effect.
pub proof fn updates_are_made(
    effects: Keyed<EffectView>,
    run: Seq<char>,
    updates: Seq<EffectUpdateView>,
    at: int,
)
    requires
        effects_fit(effects, run, updates),
    ensures
        effects_written(effects, run, updates, at, with_effects(effects, run, updates, at)),
    decreases updates.len(),
{
    let after = with_effects(effects, run, updates, at);
    if updates.len() > 0 {
        let front = updates.drop_last();
        let last = updates.last();
        assert forall|i: int| 0 <= i < front.len() implies front[i] == updates[i] by {}
        assert(effects_fit(effects, run, front));
        updates_are_made(effects, run, front, at);
        let mid = with_effects(effects, run, front, at);
        assert(after == with_effect(mid, run, last, at));
        assert(last == updates[updates.len() - 1]);
        assert(effects.contains_key((run, last.key)));
        assert(mid[(run, last.key)] == effects[(run, last.key)]) by {
            assert forall|i: int| 0 <= i < front.len() implies (#[trigger] front[i]).key
                != last.key by {
                assert(updates[i].key != updates[updates.len() - 1].key);
            }
        }
        assert(after.dom() =~= effects.dom());
        assert forall|i: int| 0 <= i < updates.len() implies updated(
            effects[(run, (#[trigger] updates[i]).key)],
            updates[i],
            at,
            after[(run, updates[i].key)],
        ) by {
            if i < front.len() {
                assert(front[i] == updates[i]);
                assert(updates[i].key != updates[updates.len() - 1].key);
                assert(updated(
                    effects[(run, front[i].key)],
                    front[i],
                    at,
                    mid[(run, front[i].key)],
                ));
            }
        }
        assert forall|other: Seq<char>, key: Seq<char>|
            (other != run || forall|i: int|
                0 <= i < updates.len() ==> (#[trigger] updates[i]).key
                    != key) implies #[trigger] after[(other, key)] == effects[(other, key)] by {
            if other == run {
                assert(updates[updates.len() - 1].key != key);
                assert forall|i: int| 0 <= i < front.len() implies (#[trigger] front[i]).key
                    != key by {
                    assert(updates[i].key != key);
                }
            }
            assert(mid[(other, key)] == effects[(other, key)]);
        }
    }
}

/// Items that fit are recorded, each under its key.
pub proof fn items_are_recorded(
    items: Keyed<ItemView>,
    run: Seq<char>,
    writes: Seq<ItemWriteView>,
    at: int,
)
    requires
        items_fit(items, run, writes),
    ensures
        items_written(items, run, writes, at, with_items(items, run, writes, at)),
    decreases writes.len(),
{
    let after = with_items(items, run, writes, at);
    if writes.len() > 0 {
        let front = writes.drop_last();
        let last = writes.last();
        assert forall|i: int| 0 <= i < front.len() implies front[i] == writes[i] by {}
        assert(items_fit(items, run, front));
        items_are_recorded(items, run, front, at);
        let mid = with_items(items, run, front, at);
        assert(after == with_item(mid, run, last, at));
        assert(last == writes[writes.len() - 1]);
        assert forall|i: int| 0 <= i < front.len() implies (#[trigger] front[i]).key
            != last.key by {
            assert(writes[i].key != writes[writes.len() - 1].key);
        }
        assert(mid.contains_key((run, last.key)) <==> items.contains_key((run, last.key)));
        assert forall|i: int| 0 <= i < writes.len() implies {
            let key = (run, (#[trigger] writes[i]).key);
            &&& after.contains_key(key)
            &&& after[key].kind == writes[i].kind && after[key].body == writes[i].body
            &&& items.contains_key(key) ==> after[key] == items[key]
            &&& !items.contains_key(key) ==> after[key].run_id == run && after[key].key
                == writes[i].key && after[key].created_at == at && after[key].updated_at == at
        } by {
            if i < front.len() {
                assert(front[i] == writes[i]);
                assert(mid.contains_key((run, front[i].key)));
            } else {
                assert(mid[(run, last.key)] == items[(run, last.key)]);
            }
        }
        assert forall|other: Seq<char>, key: Seq<char>|
            (other != run || forall|i: int|
                0 <= i < writes.len() ==> (#[trigger] writes[i]).key != key) implies (
        #[trigger] after.contains_key((other, key)) <==> items.contains_key((other, key)))
            && after[(other, key)] == items[(other, key)] by {
            if other == run {
                assert(writes[writes.len() - 1].key != key);
                assert forall|i: int| 0 <= i < front.len() implies (#[trigger] front[i]).key
                    != key by {
                    assert(writes[i].key != key);
                }
            }
            assert(mid.contains_key((other, key)) <==> items.contains_key((other, key)));
        }
    }
}

/// The last place of a session is that of one of its entries, unless it has none.
proof fn lemma_top_is_there(entries: Seq<ScopedEntryView>, scope: Seq<char>, session: Seq<char>)
    ensures
        top_place(entries, scope, session) == 0 || exists|k: int|
            0 <= k < entries.len() && (#[trigger] entries[k]).scope == scope
                && entries[k].entry.session_id == session && entries[k].entry.seq == top_place(
                entries,
                scope,
                session,
            ),
    decreases entries.len(),
{
    if entries.len() > 0 {
        let front = entries.drop_last();
        lemma_top_is_there(front, scope, session);
        let top = top_place(front, scope, session);
        if top_place(entries, scope, session) == top && top != 0 {
            let k = choose|k: int|
                0 <= k < front.len() && (#[trigger] front[k]).scope == scope
                    && front[k].entry.session_id == session && front[k].entry.seq == top;
            assert(entries[k] == front[k]);
        } else {
            assert(entries[entries.len() - 1] == entries.last());
        }
    }
}

/// Entries are recorded behind those before, each under its key and in the next place.
pub proof fn entries_are_recorded(
    entries: Seq<ScopedEntryView>,
    origin: EntryOrigin,
    writes: Seq<EntryWriteView>,
)
    ensures
        entries_written(entries, origin, writes, with_entries(entries, origin, writes)),
    decreases writes.len(),
{
    let after = with_entries(entries, origin, writes);
    let (scope, session) = (origin.scope, origin.session_id);
    if writes.len() == 0 {
        assert(after.take(entries.len() as int) =~= entries);
    } else {
        let front = writes.drop_last();
        let last = writes.last();
        entries_are_recorded(entries, origin, front);
        let mid = with_entries(entries, origin, front);
        assert(after == with_entry(mid, origin, last));
        let there = has_entry(mid, scope, session, last.key);
        assert(there <==> known(mid, scope, session, last.key)) by {
            if there {
                let k = choose|k: int|
                    0 <= k < mid.len() && (#[trigger] mid[k]).under(scope, session, last.key);
                assert(mid[k].scope == scope);
            }
            if known(mid, scope, session, last.key) {
                let k = choose|k: int|
                    0 <= k < mid.len() && (#[trigger] mid[k]).scope == scope
                        && mid[k].entry.session_id == session && mid[k].entry.key == last.key;
                assert(mid[k].under(scope, session, last.key));
            }
        }
        assert(after.take(entries.len() as int) =~= entries) by {
            assert(mid.take(entries.len() as int) == entries);
            assert forall|k: int| 0 <= k < entries.len() implies after[k] == entries[k] by {
                assert(mid.take(entries.len() as int)[k] == entries[k]);
            }
        }
        assert forall|i: int| 0 <= i < writes.len() implies #[trigger] known(
            after,
            scope,
            session,
            writes[i].key,
        ) by {
            if i < front.len() {
                assert(front[i] == writes[i]);
                assert(known(mid, scope, session, front[i].key));
                let k = choose|k: int|
                    0 <= k < mid.len() && (#[trigger] mid[k]).scope == scope
                        && mid[k].entry.session_id == session && mid[k].entry.key == front[i].key;
                assert(after[k] == mid[k]);
            } else if there {
                assert(after == mid);
            } else {
                assert(after[mid.len() as int].entry.key == last.key);
            }
        }
        assert forall|j: int| entries.len() <= j < after.len() implies {
            &&& next_in_line(after, j)
            &&& !known(entries, scope, session, (#[trigger] after[j]).entry.key)
            &&& exists|i: int|
                0 <= i < writes.len() && entry_of(after[j], origin, #[trigger] writes[i])
        } by {
            if j < mid.len() {
                assert(after[j] == mid[j]);
                assert(next_in_line(mid, j));
                assert(next_in_line(after, j)) by {
                    assert forall|k: int| 0 <= k < j implies after[k] == mid[k] by {}
                    let seq = mid[j].entry.seq;
                    if seq != 1 {
                        let k = choose|k: int|
                            0 <= k < j && (#[trigger] mid[k]).scope == mid[j].scope
                                && mid[k].entry.session_id == mid[j].entry.session_id
                                && mid[k].entry.seq == seq - 1;
                        assert(after[k].entry.seq == seq - 1);
                    }
                }
                let i = choose|i: int|
                    0 <= i < front.len() && entry_of(mid[j], origin, #[trigger] front[i]);
                assert(entry_of(after[j], origin, writes[i]));
            } else {
                lemma_top_place(mid, scope, session);
                lemma_top_is_there(mid, scope, session);
                let top = top_place(mid, scope, session);
                assert(next_in_line(after, j)) by {
                    assert forall|k: int|
                        0 <= k < j && (#[trigger] after[k]).scope == scope
                            && after[k].entry.session_id == session implies after[k].entry.seq
                        < after[j].entry.seq by {
                        assert(after[k] == mid[k]);
                        assert(mid[k].within(scope, session));
                    }
                    if top != 0 {
                        let k = choose|k: int|
                            0 <= k < mid.len() && (#[trigger] mid[k]).scope == scope
                                && mid[k].entry.session_id == session && mid[k].entry.seq == top;
                        assert(after[k].entry.seq == top);
                    }
                }
                assert(!known(entries, scope, session, last.key)) by {
                    if known(entries, scope, session, last.key) {
                        let k = choose|k: int|
                            0 <= k < entries.len() && (#[trigger] entries[k]).scope == scope
                                && entries[k].entry.session_id == session && entries[k].entry.key
                                == last.key;
                        assert(mid.take(entries.len() as int)[k] == entries[k]);
                        assert(mid[k] == entries[k]);
                    }
                }
                assert(entry_of(after[j], origin, writes[writes.len() - 1]));
            }
        }
    }
}

/// Entries that fit read back: under each key lies what was written.
pub proof fn entries_that_fit_read_back(
    entries: Seq<ScopedEntryView>,
    origin: EntryOrigin,
    writes: Seq<EntryWriteView>,
    i: int,
    j: int,
)
    requires
        entries_fit(entries, origin.scope, origin.session_id, writes),
        0 <= i < writes.len(),
        0 <= j < with_entries(entries, origin, writes).len(),
        with_entries(entries, origin, writes)[j].scope == origin.scope,
        with_entries(entries, origin, writes)[j].entry.session_id == origin.session_id,
        with_entries(entries, origin, writes)[j].entry.key == writes[i].key,
    ensures
        with_entries(entries, origin, writes)[j].entry.kind == writes[i].kind,
        with_entries(entries, origin, writes)[j].entry.vis == writes[i].vis,
        with_entries(entries, origin, writes)[j].entry.body == writes[i].body,
{
    let after = with_entries(entries, origin, writes);
    entries_are_recorded(entries, origin, writes);
    if j < entries.len() {
        assert(after.take(entries.len() as int)[j] == entries[j]);
        assert(entries[j] == after[j]);
    } else {
        assert(!known(entries, origin.scope, origin.session_id, after[j].entry.key));
        let k = choose|k: int|
            0 <= k < writes.len() && entry_of(after[j], origin, #[trigger] writes[k]);
        if k != i {
            if k < i {
                assert(writes[k].key != writes[i].key);
            } else {
                assert(writes[i].key != writes[k].key);
            }
        }
    }
}

} // verus!
