//! Effects, items and entries: what a run records besides its events.

use vstd::prelude::*;

use crate::error::{failure, ErrorView, MachineError};
use crate::ids::{RunId, SessionId, ThreadId};
use crate::json::{same_optional_json, Json};
use crate::text::{opt, same_optional_text, same_text};

verus! {

/// How far an effect has come.
#[derive(Debug, Clone, Copy, PartialEq, Eq, Structural)]
pub enum EffectStatus {
    /// The effect is announced.
    Reserved,
    /// The effect is under way.
    Started,
    /// The effect has a result.
    Done,
    /// The effect failed.
    Failed,
    /// Whether the effect took place is unknown.
    Unknown,
}

impl EffectStatus {
    /// The name under which a value is recorded.
    pub open spec fn text(self) -> Seq<char> {
        match self {
            EffectStatus::Reserved => "reserved"@,
            EffectStatus::Started => "started"@,
            EffectStatus::Done => "done"@,
            EffectStatus::Failed => "failed"@,
            EffectStatus::Unknown => "unknown"@,
        }
    }

    /// The name under which a value is recorded.
    pub fn as_str(&self) -> (text: &'static str)
        ensures
            text@ == self.text(),
    {
        match self {
            EffectStatus::Reserved => "reserved",
            EffectStatus::Started => "started",
            EffectStatus::Done => "done",
            EffectStatus::Failed => "failed",
            EffectStatus::Unknown => "unknown",
        }
    }

    /// The value recorded under a name.
    pub fn parse(value: &str) -> (parsed: Option<Self>)
        ensures
            match parsed {
                Some(parsed) => parsed.text() == value@,
                None => forall|other: Self| #[trigger] other.text() != value@,
            },
    {
        if same_text(value, "reserved") {
            Some(EffectStatus::Reserved)
        } else if same_text(value, "started") {
            Some(EffectStatus::Started)
        } else if same_text(value, "done") {
            Some(EffectStatus::Done)
        } else if same_text(value, "failed") {
            Some(EffectStatus::Failed)
        } else if same_text(value, "unknown") {
            Some(EffectStatus::Unknown)
        } else {
            None
        }
    }

    /// Different values are recorded under different names, so that reading the name of a value gives
    /// the value back.
    pub proof fn text_injective(left: Self, right: Self)
        requires
            left.text() == right.text(),
        ensures
            left == right,
    {
        reveal_strlit("reserved");
        reveal_strlit("started");
        reveal_strlit("done");
        reveal_strlit("failed");
        reveal_strlit("unknown");
        assert("reserved"@.len() == 8 && "reserved"@[0] == 'r' && "reserved"@[1]
            == 'e');
        assert("started"@.len() == 7 && "started"@[0] == 's' && "started"@[1]
            == 't');
        assert("done"@.len() == 4 && "done"@[0] == 'd' && "done"@[1]
            == 'o');
        assert("failed"@.len() == 6 && "failed"@[0] == 'f' && "failed"@[1]
            == 'a');
        assert("unknown"@.len() == 7 && "unknown"@[0] == 'u' && "unknown"@[1]
            == 'n');
    }
}

impl EffectStatus {
    /// Whether an effect in this status must not be started.
    pub open spec fn blocking(self) -> bool {
        self is Started || self is Unknown
    }

    /// Whether an effect in this status must not be started.
    pub fn is_blocking(&self) -> (blocking: bool)
        ensures
            blocking == self.blocking(),
    {
        matches!(self, EffectStatus::Started | EffectStatus::Unknown)
    }
}

/// An outside effect of a run, recorded under a key of the run.
#[derive(Debug, PartialEq)]
pub struct Effect {
    /// The run.
    pub run_id: RunId,
    /// The key.
    pub key: String,
    /// What sort of effect it is.
    pub kind: String,
    /// How far it has come.
    pub status: EffectStatus,
    /// What was asked for.
    pub request: Json,
    /// What came of it.
    pub result: Option<Json>,
    /// The code of its failure.
    pub error_code: Option<String>,
    /// The message of its failure.
    pub error_message: Option<String>,
    /// When it was recorded, in milliseconds since the epoch.
    pub created_at: i64,
    /// When it last changed, in milliseconds since the epoch.
    pub updated_at: i64,
}

/// The mathematical view of [`Effect`].
#[verifier::ext_equal]
pub struct EffectView {
    pub run_id: Seq<char>,
    pub key: Seq<char>,
    pub kind: Seq<char>,
    pub status: EffectStatus,
    pub request: Seq<char>,
    pub result: Option<Seq<char>>,
    pub error_code: Option<Seq<char>>,
    pub error_message: Option<Seq<char>>,
    pub created_at: int,
    pub updated_at: int,
}

impl View for Effect {
    type V = EffectView;

    open spec fn view(&self) -> EffectView {
        EffectView {
            run_id: self.run_id@,
            key: self.key@,
            kind: self.kind@,
            status: self.status,
            request: self.request@,
            result: opt(self.result),
            error_code: opt(self.error_code),
            error_message: opt(self.error_message),
            created_at: self.created_at as int,
            updated_at: self.updated_at as int,
        }
    }
}

impl Clone for Effect {
    fn clone(&self) -> (copy: Self)
        ensures
            copy == *self,
    {
        Effect {
            run_id: self.run_id.clone(),
            key: self.key.clone(),
            kind: self.kind.clone(),
            status: self.status,
            request: self.request.clone(),
            result: self.result.clone(),
            error_code: self.error_code.clone(),
            error_message: self.error_message.clone(),
            created_at: self.created_at,
            updated_at: self.updated_at,
        }
    }
}

/// A new status for an effect.
#[derive(Debug, PartialEq)]
pub struct EffectUpdate {
    /// The key of the effect.
    pub key: String,
    /// The status.
    pub status: EffectStatus,
    /// What came of the effect.
    pub result: Option<Json>,
    /// The code of its failure.
    pub error_code: Option<String>,
    /// The message of its failure.
    pub error_message: Option<String>,
}

/// The mathematical view of [`EffectUpdate`].
#[verifier::ext_equal]
pub struct EffectUpdateView {
    pub key: Seq<char>,
    pub status: EffectStatus,
    pub result: Option<Seq<char>>,
    pub error_code: Option<Seq<char>>,
    pub error_message: Option<Seq<char>>,
}

impl View for EffectUpdate {
    type V = EffectUpdateView;

    open spec fn view(&self) -> EffectUpdateView {
        EffectUpdateView {
            key: self.key@,
            status: self.status,
            result: opt(self.result),
            error_code: opt(self.error_code),
            error_message: opt(self.error_message),
        }
    }
}

impl Clone for EffectUpdate {
    fn clone(&self) -> (copy: Self)
        ensures
            copy == *self,
    {
        EffectUpdate {
            key: self.key.clone(),
            status: self.status,
            result: self.result.clone(),
            error_code: self.error_code.clone(),
            error_message: self.error_message.clone(),
        }
    }
}

impl EffectUpdateView {
    /// The effect has a result.
    pub open spec fn done(key: Seq<char>, result: Seq<char>) -> Self {
        EffectUpdateView {
            key,
            status: EffectStatus::Done,
            result: Some(result),
            error_code: None,
            error_message: None,
        }
    }

    /// The effect failed.
    pub open spec fn failed(key: Seq<char>, code: Seq<char>, message: Seq<char>) -> Self {
        EffectUpdateView {
            key,
            status: EffectStatus::Failed,
            result: None,
            error_code: Some(code),
            error_message: Some(message),
        }
    }

    /// Whether the effect took place is unknown.
    pub open spec fn unknown(key: Seq<char>, message: Seq<char>) -> Self {
        EffectUpdateView {
            key,
            status: EffectStatus::Unknown,
            result: None,
            error_code: None,
            error_message: Some(message),
        }
    }
}

impl EffectUpdate {
    /// The effect has a result.
    pub fn done(key: String, result: Json) -> (update: EffectUpdate)
        ensures
            update@ == EffectUpdateView::done(key@, result@),
    {
        EffectUpdate {
            key,
            status: EffectStatus::Done,
            result: Some(result),
            error_code: None,
            error_message: None,
        }
    }

    /// The effect failed.
    pub fn failed(key: String, code: String, message: String) -> (update: EffectUpdate)
        ensures
            update@ == EffectUpdateView::failed(key@, code@, message@),
    {
        EffectUpdate {
            key,
            status: EffectStatus::Failed,
            result: None,
            error_code: Some(code),
            error_message: Some(message),
        }
    }

    /// Whether the effect took place is unknown.
    pub fn unknown(key: String, message: String) -> (update: EffectUpdate)
        ensures
            update@ == EffectUpdateView::unknown(key@, message@),
    {
        EffectUpdate {
            key,
            status: EffectStatus::Unknown,
            result: None,
            error_code: None,
            error_message: Some(message),
        }
    }

    /// Whether two updates are the same.
    pub fn same(&self, other: &EffectUpdate) -> (same: bool)
        ensures
            same == (self@ == other@),
    {
        self.key == other.key && self.status == other.status && same_optional_json(
            &self.result,
            &other.result,
        ) && same_optional_text(&self.error_code, &other.error_code) && same_optional_text(
            &self.error_message,
            &other.error_message,
        )
    }
}

/// A value that a run recorded under a key of the run.
#[derive(Debug, PartialEq)]
pub struct Item {
    /// The run.
    pub run_id: RunId,
    /// The key.
    pub key: String,
    /// What sort of item it is.
    pub kind: String,
    /// The value.
    pub body: Json,
    /// When it was recorded, in milliseconds since the epoch.
    pub created_at: i64,
    /// When it last changed, in milliseconds since the epoch.
    pub updated_at: i64,
}

/// The mathematical view of [`Item`].
#[verifier::ext_equal]
pub struct ItemView {
    pub run_id: Seq<char>,
    pub key: Seq<char>,
    pub kind: Seq<char>,
    pub body: Seq<char>,
    pub created_at: int,
    pub updated_at: int,
}

impl View for Item {
    type V = ItemView;

    open spec fn view(&self) -> ItemView {
        ItemView {
            run_id: self.run_id@,
            key: self.key@,
            kind: self.kind@,
            body: self.body@,
            created_at: self.created_at as int,
            updated_at: self.updated_at as int,
        }
    }
}

impl Clone for Item {
    fn clone(&self) -> (copy: Self)
        ensures
            copy == *self,
    {
        Item {
            run_id: self.run_id.clone(),
            key: self.key.clone(),
            kind: self.kind.clone(),
            body: self.body.clone(),
            created_at: self.created_at,
            updated_at: self.updated_at,
        }
    }
}

/// An item to record.
#[derive(Debug, PartialEq)]
pub struct ItemWrite {
    /// The key.
    pub key: String,
    /// What sort of item it is.
    pub kind: String,
    /// The value.
    pub body: Json,
}

/// The mathematical view of [`ItemWrite`].
#[verifier::ext_equal]
pub struct ItemWriteView {
    pub key: Seq<char>,
    pub kind: Seq<char>,
    pub body: Seq<char>,
}

impl View for ItemWrite {
    type V = ItemWriteView;

    open spec fn view(&self) -> ItemWriteView {
        ItemWriteView {
            key: self.key@,
            kind: self.kind@,
            body: self.body@,
        }
    }
}

impl Clone for ItemWrite {
    fn clone(&self) -> (copy: Self)
        ensures
            copy == *self,
    {
        ItemWrite {
            key: self.key.clone(),
            kind: self.kind.clone(),
            body: self.body.clone(),
        }
    }
}

impl ItemWrite {
    /// Whether two items are the same.
    pub fn same(&self, other: &ItemWrite) -> (same: bool)
        ensures
            same == (self@ == other@),
    {
        self.key == other.key && self.kind == other.kind && self.body == other.body
    }
}

/// Who may see an entry.
#[derive(Debug, Clone, Copy, PartialEq, Eq, Structural)]
pub enum Vis {
    /// Everybody.
    Public,
    /// The runtime alone.
    Internal,
}

impl Vis {
    /// The name under which a value is recorded.
    pub open spec fn text(self) -> Seq<char> {
        match self {
            Vis::Public => "public"@,
            Vis::Internal => "internal"@,
        }
    }

    /// The name under which a value is recorded.
    pub fn as_str(&self) -> (text: &'static str)
        ensures
            text@ == self.text(),
    {
        match self {
            Vis::Public => "public",
            Vis::Internal => "internal",
        }
    }

    /// The value recorded under a name.
    pub fn parse(value: &str) -> (parsed: Option<Self>)
        ensures
            match parsed {
                Some(parsed) => parsed.text() == value@,
                None => forall|other: Self| #[trigger] other.text() != value@,
            },
    {
        if same_text(value, "public") {
            Some(Vis::Public)
        } else if same_text(value, "internal") {
            Some(Vis::Internal)
        } else {
            None
        }
    }

    /// Different values are recorded under different names, so that reading the name of a value gives
    /// the value back.
    pub proof fn text_injective(left: Self, right: Self)
        requires
            left.text() == right.text(),
        ensures
            left == right,
    {
        reveal_strlit("public");
        reveal_strlit("internal");
        assert("public"@.len() == 6 && "public"@[0] == 'p' && "public"@[1]
            == 'u');
        assert("internal"@.len() == 8 && "internal"@[0] == 'i' && "internal"@[1]
            == 'n');
    }
}

/// A value that a session keeps, under a key and a place in the session's order.
#[derive(Debug, PartialEq)]
pub struct Entry {
    /// The run that recorded it.
    pub run_id: RunId,
    /// The session.
    pub session_id: SessionId,
    /// The thread of the run.
    pub thread_id: ThreadId,
    /// Its place in the session's order.
    pub seq: i64,
    /// The key.
    pub key: String,
    /// What sort of entry it is.
    pub kind: String,
    /// Who may see it.
    pub vis: Vis,
    /// The value.
    pub body: Json,
    /// When it was recorded, in milliseconds since the epoch.
    pub created_at: i64,
    /// When it last changed, in milliseconds since the epoch.
    pub updated_at: i64,
}

/// The mathematical view of [`Entry`].
#[verifier::ext_equal]
pub struct EntryView {
    pub run_id: Seq<char>,
    pub session_id: Seq<char>,
    pub thread_id: Seq<char>,
    pub seq: int,
    pub key: Seq<char>,
    pub kind: Seq<char>,
    pub vis: Vis,
    pub body: Seq<char>,
    pub created_at: int,
    pub updated_at: int,
}

impl View for Entry {
    type V = EntryView;

    open spec fn view(&self) -> EntryView {
        EntryView {
            run_id: self.run_id@,
            session_id: self.session_id@,
            thread_id: self.thread_id@,
            seq: self.seq as int,
            key: self.key@,
            kind: self.kind@,
            vis: self.vis,
            body: self.body@,
            created_at: self.created_at as int,
            updated_at: self.updated_at as int,
        }
    }
}

impl Clone for Entry {
    fn clone(&self) -> (copy: Self)
        ensures
            copy == *self,
    {
        Entry {
            run_id: self.run_id.clone(),
            session_id: self.session_id.clone(),
            thread_id: self.thread_id.clone(),
            seq: self.seq,
            key: self.key.clone(),
            kind: self.kind.clone(),
            vis: self.vis,
            body: self.body.clone(),
            created_at: self.created_at,
            updated_at: self.updated_at,
        }
    }
}

/// An entry to record.
#[derive(Debug, PartialEq)]
pub struct EntryWrite {
    /// The key.
    pub key: String,
    /// What sort of entry it is.
    pub kind: String,
    /// Who may see it.
    pub vis: Vis,
    /// The value.
    pub body: Json,
}

/// The mathematical view of [`EntryWrite`].
#[verifier::ext_equal]
pub struct EntryWriteView {
    pub key: Seq<char>,
    pub kind: Seq<char>,
    pub vis: Vis,
    pub body: Seq<char>,
}

impl View for EntryWrite {
    type V = EntryWriteView;

    open spec fn view(&self) -> EntryWriteView {
        EntryWriteView {
            key: self.key@,
            kind: self.kind@,
            vis: self.vis,
            body: self.body@,
        }
    }
}

impl Clone for EntryWrite {
    fn clone(&self) -> (copy: Self)
        ensures
            copy == *self,
    {
        EntryWrite {
            key: self.key.clone(),
            kind: self.kind.clone(),
            vis: self.vis,
            body: self.body.clone(),
        }
    }
}

impl EntryWriteView {
    /// An entry to record.
    pub open spec fn of(key: Seq<char>, kind: Seq<char>, vis: Vis, body: Seq<char>) -> Self {
        EntryWriteView { key, kind, vis, body }
    }
}

impl EntryWrite {
    /// An entry to record.
    pub fn new(key: String, kind: String, vis: Vis, body: Json) -> (entry: EntryWrite)
        ensures
            entry@ == EntryWriteView::of(key@, kind@, vis, body@),
    {
        EntryWrite { key, kind, vis, body }
    }

    /// Whether two entries are the same.
    pub fn same(&self, other: &EntryWrite) -> (same: bool)
        ensures
            same == (self@ == other@),
    {
        self.key == other.key && self.kind == other.kind && self.vis == other.vis && self.body
            == other.body
    }
}

/// Which entries of a session to list.
#[derive(Debug, Clone, Copy)]
pub struct EntryQuery<'a> {
    /// The scope of the session.
    pub scope: &'a Json,
    /// The session.
    pub session_id: &'a SessionId,
    /// Only entries of this thread.
    pub thread_id: Option<&'a ThreadId>,
    /// Only entries of this sort.
    pub kind: Option<&'a str>,
    /// Only entries that these may see.
    pub vis: Option<Vis>,
    /// Only entries after this place.
    pub after_seq: i64,
    /// At most this many.
    pub limit: usize,
}

/// The mathematical view of [`EntryQuery`].
pub struct EntryQueryView {
    pub scope: Seq<char>,
    pub session_id: Seq<char>,
    pub thread_id: Option<Seq<char>>,
    pub kind: Option<Seq<char>>,
    pub vis: Option<Vis>,
    pub after_seq: int,
    pub limit: nat,
}

impl<'a> View for EntryQuery<'a> {
    type V = EntryQueryView;

    open spec fn view(&self) -> EntryQueryView {
        EntryQueryView {
            scope: self.scope@,
            session_id: self.session_id@,
            thread_id: opt(self.thread_id),
            kind: opt(self.kind),
            vis: self.vis,
            after_seq: self.after_seq as int,
            limit: self.limit as nat,
        }
    }
}

impl EntryQueryView {
    /// All entries of a session, from the first.
    pub open spec fn all(scope: Seq<char>, session: Seq<char>, limit: nat) -> Self {
        EntryQueryView {
            scope,
            session_id: session,
            thread_id: None,
            kind: None,
            vis: None,
            after_seq: 0,
            limit,
        }
    }

    /// Only entries of one thread.
    pub open spec fn of_thread(self, thread: Seq<char>) -> Self {
        EntryQueryView { thread_id: Some(thread), ..self }
    }

    /// Only entries of one sort.
    pub open spec fn of_kind(self, kind: Seq<char>) -> Self {
        EntryQueryView { kind: Some(kind), ..self }
    }

    /// Only entries of one visibility.
    pub open spec fn of_vis(self, vis: Vis) -> Self {
        EntryQueryView { vis: Some(vis), ..self }
    }

    /// Only entries after a place.
    pub open spec fn from_place(self, after: int) -> Self {
        EntryQueryView { after_seq: after, ..self }
    }
}

impl<'a> EntryQuery<'a> {
    /// All entries of a session, from the first.
    pub fn new(scope: &'a Json, session_id: &'a SessionId, limit: usize) -> (query: Self)
        ensures
            query@ == EntryQueryView::all(scope@, session_id@, limit as nat),
    {
        EntryQuery {
            scope,
            session_id,
            thread_id: None,
            kind: None,
            vis: None,
            after_seq: 0,
            limit,
        }
    }

    /// Only entries of one thread.
    pub fn thread(self, thread_id: &'a ThreadId) -> (query: Self)
        ensures
            query@ == self@.of_thread(thread_id@),
    {
        EntryQuery { thread_id: Some(thread_id), ..self }
    }

    /// Only entries of one sort.
    pub fn kind(self, kind: &'a str) -> (query: Self)
        ensures
            query@ == self@.of_kind(kind@),
    {
        EntryQuery { kind: Some(kind), ..self }
    }

    /// Only entries of one visibility.
    pub fn vis(self, vis: Vis) -> (query: Self)
        ensures
            query@ == self@.of_vis(vis),
    {
        EntryQuery { vis: Some(vis), ..self }
    }

    /// Only entries after a place.
    pub fn after(self, after_seq: i64) -> (query: Self)
        ensures
            query@ == self@.from_place(after_seq as int),
    {
        EntryQuery { after_seq, ..self }
    }
}

/// A part of a list, and where the next part begins.
#[derive(Debug, PartialEq)]
pub struct Page<T> {
    /// What the part holds.
    pub items: Vec<T>,
    /// The place after which the next part begins, where there is more.
    pub next: Option<i64>,
}

/// The mathematical view of [`Page`].
#[verifier::ext_equal]
pub struct PageView<T> {
    pub items: Seq<T>,
    pub next: Option<int>,
}

impl<T> View for Page<T> {
    type V = PageView<T>;

    open spec fn view(&self) -> PageView<T> {
        PageView {
            items: self.items@,
            next: match self.next {
                Some(next) => Some(next as int),
                None => None,
            },
        }
    }
}

impl<T> Page<T> {
    /// A part of a list.
    pub fn new(items: Vec<T>, next: Option<i64>) -> (page: Self)
        ensures
            page.items == items,
            page.next == next,
    {
        Page { items, next }
    }

    /// A part that holds nothing and ends the list.
    pub fn empty() -> (page: Self)
        ensures
            page.items@.len() == 0,
            page.next is None,
    {
        Page { items: Vec::new(), next: None }
    }
}

impl<T> std::ops::Deref for Page<T> {
    type Target = [T];

    /// What the part holds.
    fn deref(&self) -> (items: &[T])
        ensures
            items@ == self.items@,
    {
        self.items.as_slice()
    }
}

/// Why an operation is refused that nothing records.
pub open spec fn unrecorded() -> ErrorView {
    ErrorView::RuntimeOpUnavailable
}

/// The operations of a run that nothing records: each is refused.
#[derive(Debug)]
pub struct NoopRunOps;

impl NoopRunOps {
    /// Reserves no effect.
    pub fn reserve(&self, _run_id: &RunId, _key: &str, _kind: &str, _request: Json) -> (result:
        Result<Effect, MachineError>)
        ensures
            result == Err::<Effect, MachineError>(MachineError::RuntimeOpUnavailable),
            failure(result) == Some(unrecorded()),
    {
        Err(MachineError::RuntimeOpUnavailable)
    }

    /// Starts no effect.
    pub fn start(&self, _run_id: &RunId, _key: &str) -> (result: Result<Effect, MachineError>)
        ensures
            result == Err::<Effect, MachineError>(MachineError::RuntimeOpUnavailable),
            failure(result) == Some(unrecorded()),
    {
        Err(MachineError::RuntimeOpUnavailable)
    }

    /// Takes up no change of an effect.
    pub fn push_effect(&self, _run_id: &RunId, _update: EffectUpdate) -> (result: Result<
        (),
        MachineError,
    >)
        ensures
            result == Err::<(), MachineError>(MachineError::RuntimeOpUnavailable),
            failure(result) == Some(unrecorded()),
    {
        Err(MachineError::RuntimeOpUnavailable)
    }

    /// Takes up no item.
    pub fn push_item(&self, _run_id: &RunId, _item: ItemWrite) -> (result: Result<(), MachineError>)
        ensures
            result == Err::<(), MachineError>(MachineError::RuntimeOpUnavailable),
            failure(result) == Some(unrecorded()),
    {
        Err(MachineError::RuntimeOpUnavailable)
    }
}

} // verus!
