//! The entries of sessions: which are there, and how more are recorded.

use vstd::prelude::*;

use crate::error::{failure, ErrorView, MachineError};
use crate::ids::{RunId, SessionId, ThreadId};
use crate::json::Json;
use crate::model::{
    entries_refusal, entry_refusal, first_failure, has_entry, lemma_first_failure, numberable,
    top_place, with_entries, with_entry, EntryOrigin, ScopedEntryView,
};
use crate::op::{Entry, EntryQuery, EntryWrite, EntryWriteView};
use crate::text::{same_text, views};

verus! {

/// An entry of a session, with the scope of the session.
#[derive(Debug)]
pub struct ScopedEntry {
    pub scope: Json,
    pub entry: Entry,
}

impl View for ScopedEntry {
    type V = ScopedEntryView;

    open spec fn view(&self) -> ScopedEntryView {
        ScopedEntryView { scope: self.scope@, entry: self.entry@ }
    }
}

impl ScopedEntry {
    /// Whether the entry lies under a key of a session.
    pub fn under(&self, scope: &Json, session_id: &SessionId, key: &String) -> (under: bool)
        ensures
            under == self@.under(scope@, session_id@, key@),
    {
        self.scope == *scope && self.entry.session_id == *session_id && self.entry.key == *key
    }

    /// Whether the entry says what is to be written.
    pub fn says(&self, write: &EntryWrite) -> (same: bool)
        ensures
            same == self@.says(write@),
    {
        self.entry.kind == write.kind && self.entry.vis == write.vis && self.entry.body
            == write.body
    }

    /// Whether a query asks for the entry.
    pub fn matches(&self, query: &EntryQuery) -> (matches: bool)
        ensures
            matches == self@.matches(query@),
    {
        if self.scope != *query.scope || self.entry.session_id != *query.session_id {
            return false;
        }
        if self.entry.seq <= query.after_seq {
            return false;
        }
        if let Some(thread_id) = query.thread_id {
            if self.entry.thread_id != *thread_id {
                return false;
            }
        }
        if let Some(kind) = query.kind {
            if !same_text(self.entry.kind.as_str(), kind) {
                return false;
            }
        }
        if let Some(vis) = query.vis {
            if self.entry.vis != vis {
                return false;
            }
        }
        true
    }
}

/// Where the entry under a key of a session is.
pub fn find_entry(
    entries: &Vec<ScopedEntry>,
    scope: &Json,
    session_id: &SessionId,
    key: &String,
) -> (place: Option<usize>)
    ensures
        match place {
            Some(i) => i < entries.len() && views(entries@)[i as int].under(
                scope@,
                session_id@,
                key@,
            ) && has_entry(views(entries@), scope@, session_id@, key@),
            None => !has_entry(views(entries@), scope@, session_id@, key@),
        },
{
    let mut i: usize = 0;
    while i < entries.len()
        invariant
            i <= entries.len(),
            forall|j: int|
                0 <= j < i ==> !(#[trigger] views(entries@)[j]).under(scope@, session_id@, key@),
        decreases entries.len() - i,
    {
        if entries[i].under(scope, session_id, key) {
            assert(views(entries@)[i as int].under(scope@, session_id@, key@));
            return Some(i);
        }
        i = i + 1;
    }
    None
}

fn conflicts(
    entries: &Vec<ScopedEntry>,
    scope: &Json,
    session_id: &SessionId,
    writes: &Vec<EntryWrite>,
    i: usize,
) -> (conflict: bool)
    requires
        i < writes.len(),
    ensures
        entry_refusal(views(entries@), scope@, session_id@, views(writes@), i as int)
            == if conflict {
            Some(ErrorView::EntryConflict)
        } else {
            None
        },
{
    let write = &writes[i];
    let mut j: usize = 0;
    while j < i
        invariant
            j <= i,
            i < writes.len(),
            *write == writes@[i as int],
            forall|k: int| 0 <= k < j ==> (#[trigger] views(writes@)[k]).key != write.key@,
        decreases i - j,
    {
        if writes[j].key == write.key {
            assert(views(writes@)[j as int].key == write.key@);
            return true;
        }
        j = j + 1;
    }
    let mut k: usize = 0;
    while k < entries.len()
        invariant
            k <= entries.len(),
            i < writes.len(),
            *write == writes@[i as int],
            forall|j: int|
                0 <= j < k ==> !((#[trigger] views(entries@)[j]).under(
                    scope@,
                    session_id@,
                    write@.key,
                ) && !views(entries@)[j].says(write@)),
        decreases entries.len() - k,
    {
        if entries[k].under(scope, session_id, &write.key) && !entries[k].says(write) {
            assert(views(entries@)[k as int].under(scope@, session_id@, write@.key));
            return true;
        }
        k = k + 1;
    }
    false
}

/// Entries must be recorded once each, and not over others.
pub fn validate_entries(
    entries: &Vec<ScopedEntry>,
    scope: &Json,
    session_id: &SessionId,
    writes: &Vec<EntryWrite>,
) -> (result: Result<(), MachineError>)
    ensures
        failure(result) == entries_refusal(
            views(entries@),
            scope@,
            session_id@,
            views(writes@),
        ),
{
    let ghost check = |i: int|
        entry_refusal(views(entries@), scope@, session_id@, views(writes@), i);
    let mut i: usize = 0;
    while i < writes.len()
        invariant
            i <= writes.len(),
            check == |i: int|
                entry_refusal(views(entries@), scope@, session_id@, views(writes@), i),
            first_failure(i as nat, check) is None,
        decreases writes.len() - i,
    {
        if conflicts(entries, scope, session_id, writes, i) {
            proof {
                lemma_first_failure(writes@.len(), check, i as nat);
            }
            return Err(MachineError::EntryConflict);
        }
        i = i + 1;
    }
    Ok(())
}

/// Entries are refused only because they conflict.
pub proof fn lemma_entries_refusal(
    entries: Seq<ScopedEntryView>,
    scope: Seq<char>,
    session: Seq<char>,
    writes: Seq<EntryWriteView>,
)
    ensures
        entries_refusal(entries, scope, session, writes) matches Some(error) ==> error
            == ErrorView::EntryConflict,
{
    let check = |i: int| entry_refusal(entries, scope, session, writes, i);
    lemma_only_conflicts(writes.len(), check);
}

proof fn lemma_only_conflicts(n: nat, check: spec_fn(int) -> Option<ErrorView>)
    requires
        forall|i: int|
            (#[trigger] check(i)) matches Some(error) ==> error == ErrorView::EntryConflict,
    ensures
        first_failure(n, check) matches Some(error) ==> error == ErrorView::EntryConflict,
    decreases n,
{
    if n > 0 {
        lemma_only_conflicts((n - 1) as nat, check);
    }
}

/// The last place that a session's entries take.
pub fn top_seq(entries: &Vec<ScopedEntry>, scope: &Json, session_id: &SessionId) -> (top: i64)
    ensures
        top == top_place(views(entries@), scope@, session_id@),
{
    let mut top: i64 = 0;
    let mut i: usize = 0;
    while i < entries.len()
        invariant
            i <= entries.len(),
            top == top_place(views(entries@).take(i as int), scope@, session_id@),
        decreases entries.len() - i,
    {
        let scoped = &entries[i];
        proof {
            let next = views(entries@).take(i + 1);
            assert(next.drop_last() =~= views(entries@).take(i as int));
            assert(next.last() == scoped@);
        }
        if scoped.scope == *scope && scoped.entry.session_id == *session_id && scoped.entry.seq
            > top {
            top = scoped.entry.seq;
        }
        i = i + 1;
    }
    assert(views(entries@).take(entries@.len() as int) =~= views(entries@));
    top
}

/// Who records entries.
pub struct Origin<'a> {
    pub scope: &'a Json,
    pub run_id: &'a RunId,
    pub session_id: &'a SessionId,
    pub thread_id: &'a ThreadId,
    pub at: i64,
}

impl<'a> View for Origin<'a> {
    type V = EntryOrigin;

    open spec fn view(&self) -> EntryOrigin {
        EntryOrigin {
            scope: self.scope@,
            run_id: self.run_id@,
            session_id: self.session_id@,
            thread_id: self.thread_id@,
            at: self.at as int,
        }
    }
}

/// Records an entry. One that is there already is left as it is.
pub fn apply_entry(entries: &mut Vec<ScopedEntry>, origin: &Origin, write: &EntryWrite)
    requires
        top_place(views(old(entries)@), origin.scope@, origin.session_id@) < i64::MAX,
    ensures
        views(final(entries)@) == with_entry(views(old(entries)@), origin@, write@),
{
    if find_entry(entries, origin.scope, origin.session_id, &write.key).is_some() {
        return;
    }
    let seq: i64 = top_seq(entries, origin.scope, origin.session_id) + 1;
    let scoped = ScopedEntry {
        scope: origin.scope.clone(),
        entry: Entry {
            run_id: origin.run_id.clone(),
            session_id: origin.session_id.clone(),
            thread_id: origin.thread_id.clone(),
            seq,
            key: write.key.clone(),
            kind: write.kind.clone(),
            vis: write.vis,
            body: write.body.clone(),
            created_at: origin.at,
            updated_at: origin.at,
        },
    };
    entries.push(scoped);
    assert(views(entries@) =~= views(old(entries)@).push(scoped@));
}

/// Recording an entry moves the last place of a session by one at most.
pub proof fn lemma_top_grows(
    entries: Seq<ScopedEntryView>,
    origin: EntryOrigin,
    write: EntryWriteView,
)
    ensures
        top_place(with_entry(entries, origin, write), origin.scope, origin.session_id) <= top_place(
            entries,
            origin.scope,
            origin.session_id,
        ) + 1,
{
    let next = with_entry(entries, origin, write);
    if next != entries {
        assert(next.drop_last() =~= entries);
    }
}

/// Records entries, in order.
pub fn apply_entries(entries: &mut Vec<ScopedEntry>, origin: &Origin, writes: &Vec<EntryWrite>)
    requires
        numberable(views(old(entries)@), origin.scope@, origin.session_id@, writes@.len()),
    ensures
        views(final(entries)@) == with_entries(views(old(entries)@), origin@, views(writes@)),
{
    let ghost before = views(entries@);
    let mut i: usize = 0;
    assert(with_entries(before, origin@, views(writes@).take(0)) =~= before);
    while i < writes.len()
        invariant
            i <= writes.len(),
            views(entries@) == with_entries(before, origin@, views(writes@).take(i as int)),
            numberable(before, origin.scope@, origin.session_id@, writes@.len()),
            top_place(views(entries@), origin.scope@, origin.session_id@) <= top_place(
                before,
                origin.scope@,
                origin.session_id@,
            ) + i,
        decreases writes.len() - i,
    {
        let ghost now = views(entries@);
        apply_entry(entries, origin, &writes[i]);
        proof {
            let next = views(writes@).take(i + 1);
            assert(next.drop_last() =~= views(writes@).take(i as int));
            assert(next.last() == writes@[i as int]@);
            lemma_top_grows(now, origin@, writes@[i as int]@);
        }
        i = i + 1;
    }
    assert(views(writes@).take(writes@.len() as int) =~= views(writes@));
}

} // verus!
