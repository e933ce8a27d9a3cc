//! The runs that are active here: their handles, their event numbers and who listens to them.

use vstd::prelude::*;

use tokio::sync::mpsc::{UnboundedReceiver, UnboundedSender};

use crate::channel::{
    kept, lemma_kept_views, newcomer, offer_all, offered_all, retain_taken, sends, Listener,
    ListenerView, Sent, Wire,
};
use crate::error::{failure, ErrorView, MachineError};
use crate::flag::{with_flag, Flags};
use crate::ids::RunId;
use crate::store::RunEvent;
use crate::table::Table;
use crate::text::{opt, same_text, views};

verus! {

/// A handle on a run: a token, and a flag that all copies of the handle share.
#[derive(Debug)]
pub struct RunHandle {
    /// The token under which the run was started.
    pub token: String,
    bit: usize,
}

/// The mathematical view of [`RunHandle`].
#[verifier::ext_equal]
pub struct HandleView {
    /// The token.
    pub token: Seq<char>,
    /// Which flag the copies of the handle share.
    pub bit: nat,
}

impl View for RunHandle {
    type V = HandleView;

    closed spec fn view(&self) -> HandleView {
        HandleView { token: self.token@, bit: self.bit as nat }
    }
}

impl HandleView {
    /// A handle that is made beside some flags.
    pub open spec fn issued(token: Seq<char>, flags: Seq<bool>) -> Self {
        HandleView { token, bit: flags.len() }
    }

    /// Whether the flag of a handle is among some flags.
    pub open spec fn among(self, flags: Seq<bool>) -> bool {
        self.bit < flags.len()
    }

    /// Some flags, once that of a handle was set.
    pub open spec fn raise(self, flags: Seq<bool>) -> Seq<bool> {
        flags.update(self.bit as int, true)
    }

    /// Whether the flag of a handle is set.
    pub open spec fn raised(self, flags: Seq<bool>) -> bool {
        flags[self.bit as int]
    }
}

impl RunHandle {
    /// A handle with a flag of its own, which is not set.
    pub fn new(token: String, flags: &mut Flags) -> (handle: Self)
        ensures
            handle@ == HandleView::issued(token@, old(flags)@),
            final(flags)@ == with_flag(old(flags)@),
    {
        let bit: usize = flags.add();
        RunHandle { token, bit }
    }

    /// Sets the flag, which all copies of the handle share.
    pub fn cancel(&self, flags: &mut Flags)
        requires
            self@.among(old(flags)@),
        ensures
            final(flags)@ == self@.raise(old(flags)@),
    {
        flags.raise(self.bit);
    }

    /// Whether the flag is set.
    pub fn is_cancelled(&self, flags: &Flags) -> (cancelled: bool)
        requires
            self@.among(flags@),
        ensures
            cancelled == self@.raised(flags@),
    {
        flags.read(self.bit)
    }
}

impl Clone for RunHandle {
    /// A copy that shares the flag.
    fn clone(&self) -> (copy: Self)
        ensures
            copy@ == self@,
            copy == *self,
    {
        RunHandle { token: self.token.clone(), bit: self.bit }
    }
}

/// Setting the flag of a handle shows in all its copies, whenever they were made, and in no other
/// handle; setting it once more changes nothing, and no flag that was set is taken back.
pub proof fn cancelling_shows_in_copies(
    flags: Seq<bool>,
    handle: HandleView,
    copy: HandleView,
    other: HandleView,
)
    requires
        handle.among(flags),
        copy.bit == handle.bit,
        other.among(flags),
    ensures
        handle.raised(handle.raise(flags)),
        copy.raised(handle.raise(flags)),
        other.bit != handle.bit ==> other.raised(handle.raise(flags)) == other.raised(flags),
        other.raised(flags) ==> other.raised(handle.raise(flags)),
        handle.raise(handle.raise(flags)) == handle.raise(flags),
{
    assert(handle.raise(handle.raise(flags)) =~= handle.raise(flags));
}

/// A new handle shares its flag with none that was there before, its flag is not set, and the flags
/// of the others are as they were.
pub proof fn new_handles_are_apart(flags: Seq<bool>, handle: HandleView, other: HandleView)
    requires
        handle.bit == flags.len(),
        other.among(flags),
    ensures
        handle.bit != other.bit,
        handle.among(flags.push(false)),
        !handle.raised(flags.push(false)),
        other.raised(flags.push(false)) == other.raised(flags),
{
}

/// A handle that is made has its token and a flag of its own, which is not set; the flags that were
/// there stay as they were.
pub proof fn made_handles_have_their_own_flag(
    token: Seq<char>,
    flags: Seq<bool>,
    other: HandleView,
)
    requires
        other.among(flags),
    ensures
        ({
            let handle = HandleView::issued(token, flags);
            let after = with_flag(flags);
            &&& handle.token == token
            &&& handle.among(after) && !handle.among(flags)
            &&& !handle.raised(after)
            &&& after.len() == flags.len() + 1
            &&& other.among(after) && other.raised(after) == other.raised(flags)
        }),
{
}

#[verifier::reject_recursive_types(E)]
struct ActiveRun<E> {
    handle: RunHandle,
    current_seq: i64,
    terminal_published: bool,
    listeners: Vec<Listener<E>>,
}

/// An active run.
#[verifier::ext_equal]
#[verifier::reject_recursive_types(E)]
pub struct ActiveView<E> {
    /// Its handle.
    pub handle: HandleView,
    /// The last event number that was given out.
    pub seq: int,
    /// Whether the event that ends the run was published.
    pub terminal_published: bool,
    /// Who listens to it.
    pub listeners: Seq<ListenerView<E>>,
}

impl<E> View for ActiveRun<E> {
    type V = ActiveView<E>;

    closed spec fn view(&self) -> ActiveView<E> {
        ActiveView {
            handle: self.handle@,
            seq: self.current_seq as int,
            terminal_published: self.terminal_published,
            listeners: views(self.listeners@),
        }
    }
}

/// A run that has just become active, with its first listener where there is one.
pub open spec fn fresh<E>(handle: HandleView, sender: Option<UnboundedSender<E>>) -> ActiveView<E> {
    ActiveView {
        handle,
        seq: 0,
        terminal_published: false,
        listeners: match sender {
            Some(sender) => seq![newcomer(sender)],
            None => Seq::empty(),
        },
    }
}

/// The runs that are active here.
#[verifier::reject_recursive_types(E)]
pub struct RunRegistry<E> {
    inner: Table<RunId, ActiveRun<E>>,
    wire: Wire<E>,
    flags: Flags,
}

impl<E> View for RunRegistry<E> {
    type V = Map<Seq<char>, ActiveView<E>>;

    closed spec fn view(&self) -> Map<Seq<char>, ActiveView<E>> {
        self.inner@
    }
}

impl<E> Default for RunRegistry<E> {
    /// A registry without runs.
    fn default() -> (registry: Self)
        ensures
            registry.wf(),
            registry@ == Map::<Seq<char>, ActiveView<E>>::empty(),
            registry.said() == Seq::<Sent<E>>::empty(),
            registry.flagged() == Seq::<bool>::empty(),
    {
        RunRegistry::new()
    }
}

impl<E> RunRegistry<E> {
    /// What holds of every registry.
    pub closed spec fn wf(&self) -> bool {
        self.inner.wf() && numbers_fit(self@) && handles_known(self@, self.flagged())
    }

    /// All that was ever sent to those who listened.
    pub closed spec fn said(&self) -> Seq<Sent<E>> {
        self.wire@
    }

    /// The flags of the handles that were made here.
    pub closed spec fn flagged(&self) -> Seq<bool> {
        self.flags@
    }

    /// The flags of the active runs are among those of the registry.
    pub proof fn lemma_handles_known(&self)
        requires
            self.wf(),
        ensures
            handles_known(self@, self.flagged()),
    {
    }

    /// The event numbers of a registry are numbers of a machine.
    pub proof fn lemma_numbers_fit(&self)
        requires
            self.wf(),
        ensures
            numbers_fit(self@),
    {
    }

    /// A registry without runs.
    pub fn new() -> (registry: Self)
        ensures
            registry.wf(),
            registry@ == Map::<Seq<char>, ActiveView<E>>::empty(),
            registry.said() == Seq::<Sent<E>>::empty(),
            registry.flagged() == Seq::<bool>::empty(),
    {
        RunRegistry { inner: Table::new(), wire: Wire::new(), flags: Flags::new() }
    }

    /// How many runs are active.
    pub fn len(&self) -> (len: usize)
        requires
            self.wf(),
        ensures
            self@.dom().finite(),
            len == self@.len(),
    {
        proof {
            self.inner.lemma_finite();
        }
        self.inner.len()
    }

    /// Whether no run is active.
    pub fn is_empty(&self) -> (empty: bool)
        requires
            self.wf(),
        ensures
            empty == (self@.len() == 0),
    {
        self.len() == 0
    }

    /// Makes a run active, with its first listener where there is one.
    pub fn try_insert(
        &mut self,
        run_id: RunId,
        handle: RunHandle,
        stream_sender: Option<UnboundedSender<E>>,
        max_in_flight: usize,
    ) -> (result: Result<(), MachineError>)
        requires
            old(self).wf(),
            handle@.among(old(self).flagged()),
        ensures
            final(self).wf(),
            final(self).said() == old(self).said(),
            final(self).flagged() == old(self).flagged(),
            failure(result) == if old(self)@.contains_key(run_id@) {
                Some(ErrorView::RunAlreadyActive)
            } else if old(self)@.len() >= max_in_flight {
                Some(ErrorView::CapacityExceeded)
            } else {
                None
            },
            final(self)@ == if result is Ok {
                old(self)@.insert(run_id@, fresh(handle@, stream_sender))
            } else {
                old(self)@
            },
    {
        if self.inner.contains(&run_id) {
            return Err(MachineError::RunAlreadyActive);
        }
        if self.len() >= max_in_flight {
            return Err(MachineError::CapacityExceeded);
        }
        let mut listeners: Vec<Listener<E>> = Vec::new();
        if let Some(sender) = stream_sender {
            listeners.push(Listener::new(sender));
        }
        let run = ActiveRun { handle, current_seq: 0, terminal_published: false, listeners };
        assert(run@ =~= fresh(handle@, stream_sender));
        self.inner.insert(run_id, run);
        Ok(())
    }

    /// Makes a run inactive.
    pub fn remove(&mut self, run_id: &RunId)
        requires
            old(self).wf(),
        ensures
            final(self).wf(),
            final(self).said() == old(self).said(),
            final(self).flagged() == old(self).flagged(),
            final(self)@ == old(self)@.remove(run_id@),
    {
        self.inner.remove(run_id);
    }

    /// The handle of an active run, for who knows its token.
    pub fn resolve(&self, run_id: &RunId, token: &str) -> (handle: Option<RunHandle>)
        requires
            self.wf(),
        ensures
            opt(handle) == resolved(self@, run_id@, token@),
    {
        match self.inner.get(run_id) {
            Some(run) => if same_text(run.handle.token.as_str(), token) {
                Some(run.handle.clone())
            } else {
                None
            },
            None => None,
        }
    }

    /// The handle of an active run.
    pub fn handle(&self, run_id: &RunId) -> (handle: Option<RunHandle>)
        requires
            self.wf(),
        ensures
            opt(handle) == handle_of(self@, run_id@),
    {
        match self.inner.get(run_id) {
            Some(run) => Some(run.handle.clone()),
            None => None,
        }
    }

    /// The last event number of an active run that was given out.
    pub fn last_seq(&self, run_id: &RunId) -> (seq: Option<i64>)
        requires
            self.wf(),
        ensures
            match seq {
                Some(seq) => self@.contains_key(run_id@) && seq == self@[run_id@].seq,
                None => !self@.contains_key(run_id@),
            },
    {
        match self.inner.get(run_id) {
            Some(run) => Some(run.current_seq),
            None => None,
        }
    }

    /// Gives out the next event number of an active run.
    pub fn next_seq(&mut self, run_id: &RunId) -> (seq: Option<i64>)
        requires
            old(self).wf(),
            old(self)@.contains_key(run_id@) ==> old(self)@[run_id@].seq < i64::MAX,
        ensures
            final(self).wf(),
            final(self).said() == old(self).said(),
            final(self).flagged() == old(self).flagged(),
            match seq {
                Some(seq) => {
                    &&& old(self)@.contains_key(run_id@)
                    &&& seq == old(self)@[run_id@].seq + 1
                    &&& final(self)@ == numbered(old(self)@, run_id@, seq as int)
                },
                None => !old(self)@.contains_key(run_id@) && final(self)@ == old(self)@,
            },
    {
        match self.inner.get_mut(run_id) {
            Some(run) => {
                run.current_seq = run.current_seq + 1;
                Some(run.current_seq)
            },
            None => None,
        }
    }

    /// Takes back the event number that was given out last.
    pub fn rewind_seq(&mut self, run_id: &RunId, seq: i64) -> (rewound: bool)
        requires
            old(self).wf(),
            old(self)@.contains_key(run_id@) && old(self)@[run_id@].seq == seq ==> seq > i64::MIN,
        ensures
            final(self).wf(),
            final(self).said() == old(self).said(),
            final(self).flagged() == old(self).flagged(),
            rewound == (old(self)@.contains_key(run_id@) && old(self)@[run_id@].seq == seq),
            final(self)@ == if rewound {
                numbered(old(self)@, run_id@, seq - 1)
            } else {
                old(self)@
            },
    {
        let last = match self.inner.get(run_id) {
            Some(run) => run.current_seq == seq,
            None => false,
        };
        if !last {
            return false;
        }
        if let Some(run) = self.inner.get_mut(run_id) {
            run.current_seq = run.current_seq - 1;
        }
        true
    }

    /// Listens to an active run, unless the event that ends it was published: the receiving half of
    /// a new channel, whose sending half is registered.
    pub fn subscribe(&mut self, run_id: &RunId) -> (receiver: Option<UnboundedReceiver<E>>)
        requires
            old(self).wf(),
        ensures
            final(self).wf(),
            final(self).said() == old(self).said(),
            final(self).flagged() == old(self).flagged(),
            receiver is Some <==> open_to(old(self)@, run_id@),
            receiver is Some ==> {
                let listener = final(self)@[run_id@].listeners.last();
                &&& listener.peer == receiver
                &&& listener.offered == Seq::<E>::empty()
                &&& final(self)@ == listened(old(self)@, run_id@, listener)
            },
            receiver is None ==> final(self)@ == old(self)@,
    {
        match self.inner.get(run_id) {
            Some(run) => {
                if run.terminal_published {
                    return None;
                }
            },
            None => {
                return None;
            },
        }
        let ghost before = self@;
        let (listener, receiver) = Listener::open();
        if let Some(run) = self.inner.get_mut(run_id) {
            let ghost known = run.listeners@;
            run.listeners.push(listener);
            assert(views(run.listeners@) =~= views(known).push(listener@));
        }
        assert(self@ =~= listened(before, run_id@, listener@));
        Some(receiver)
    }

    /// Sets the flag of an active run, and hands out its handle.
    pub fn request_cancel(&mut self, run_id: &RunId) -> (handle: Option<RunHandle>)
        requires
            old(self).wf(),
        ensures
            final(self).wf(),
            final(self).said() == old(self).said(),
            final(self)@ == old(self)@,
            opt(handle) == handle_of(old(self)@, run_id@),
            final(self).flagged() == stopped(old(self)@, old(self).flagged(), run_id@),
    {
        match self.handle(run_id) {
            Some(handle) => {
                handle.cancel(&mut self.flags);
                Some(handle)
            },
            None => None,
        }
    }

    /// A handle with a flag of its own here, which is not set.
    pub fn issue(&mut self, token: String) -> (handle: RunHandle)
        requires
            old(self).wf(),
        ensures
            final(self).wf(),
            final(self).said() == old(self).said(),
            final(self)@ == old(self)@,
            handle@ == HandleView::issued(token@, old(self).flagged()),
            final(self).flagged() == with_flag(old(self).flagged()),
    {
        RunHandle::new(token, &mut self.flags)
    }

    /// The flags of the handles that were made here.
    pub fn flags(&self) -> (flags: &Flags)
        ensures
            flags@ == self.flagged(),
    {
        &self.flags
    }
}

/// The handle of an active run, for one who shows its token.
pub open spec fn resolved<E>(
    runs: Map<Seq<char>, ActiveView<E>>,
    run: Seq<char>,
    token: Seq<char>,
) -> Option<HandleView> {
    if runs.contains_key(run) && runs[run].handle.token == token {
        Some(runs[run].handle)
    } else {
        None
    }
}

/// The handle of an active run.
pub open spec fn handle_of<E>(runs: Map<Seq<char>, ActiveView<E>>, run: Seq<char>) -> Option<
    HandleView,
> {
    if runs.contains_key(run) {
        Some(runs[run].handle)
    } else {
        None
    }
}

/// The flags, once an active run was asked to stop.
pub open spec fn stopped<E>(
    runs: Map<Seq<char>, ActiveView<E>>,
    flags: Seq<bool>,
    run: Seq<char>,
) -> Seq<bool> {
    if runs.contains_key(run) {
        runs[run].handle.raise(flags)
    } else {
        flags
    }
}

/// The flag of each active run is among some flags.
pub open spec fn handles_known<E>(
    runs: Map<Seq<char>, ActiveView<E>>,
    flags: Seq<bool>,
) -> bool {
    forall|run: Seq<char>| #[trigger] runs.contains_key(run) ==> runs[run].handle.among(flags)
}

/// Whether a run has so many event numbers left to give. One that is not active has none to give,
/// and none to run out of.
pub open spec fn has_numbers<E>(
    runs: Map<Seq<char>, ActiveView<E>>,
    run: Seq<char>,
    count: nat,
) -> bool {
    runs.contains_key(run) ==> count <= i64::MAX && runs[run].seq + count <= i64::MAX
}

/// The event numbers are numbers of a machine.
pub open spec fn numbers_fit<E>(runs: Map<Seq<char>, ActiveView<E>>) -> bool {
    forall|run: Seq<char>| #[trigger]
        runs.contains_key(run) ==> i64::MIN <= runs[run].seq <= i64::MAX
}

/// The registry with another last event number for a run.
pub open spec fn numbered<E>(
    runs: Map<Seq<char>, ActiveView<E>>,
    run: Seq<char>,
    seq: int,
) -> Map<Seq<char>, ActiveView<E>> {
    runs.insert(run, ActiveView { seq, ..runs[run] })
}

/// The registry with one more listener to a run.
pub open spec fn listened<E>(
    runs: Map<Seq<char>, ActiveView<E>>,
    run: Seq<char>,
    listener: ListenerView<E>,
) -> Map<Seq<char>, ActiveView<E>> {
    runs.insert(run, ActiveView { listeners: runs[run].listeners.push(listener), ..runs[run] })
}

/// Whether a run takes events to publish.
pub open spec fn open_to<E>(runs: Map<Seq<char>, ActiveView<E>>, run: Seq<char>) -> bool {
    runs.contains_key(run) && !runs[run].terminal_published
}

/// The registry after those who listen to a run were each sent a copy of an event: those whose
/// channel took it go on listening.
pub open spec fn handed<E>(
    runs: Map<Seq<char>, ActiveView<E>>,
    run: Seq<char>,
    copies: Seq<E>,
    terminal: bool,
    answers: Seq<bool>,
) -> Map<Seq<char>, ActiveView<E>> {
    runs.insert(
        run,
        ActiveView {
            terminal_published: runs[run].terminal_published || terminal,
            listeners: kept(offered_all(runs[run].listeners, copies), answers),
            ..runs[run]
        },
    )
}

/// Whether each who listens to a run was sent a copy of an event, on a run that takes events to
/// publish.
pub open spec fn cloned_to<E: Clone>(
    runs: Map<Seq<char>, ActiveView<E>>,
    run: Seq<char>,
    event: E,
    copies: Seq<E>,
    answers: Seq<bool>,
) -> bool {
    &&& copies.len() == runs[run].listeners.len()
    &&& answers.len() == runs[run].listeners.len()
    &&& forall|i: int| 0 <= i < copies.len() ==> cloned::<E>(event, #[trigger] copies[i])
}

/// The same event for each who listens.
pub open spec fn same<E>(event: E, count: nat) -> Seq<E> {
    Seq::new(count, |i: int| event)
}

/// The registry after an event was sent to those who listen to a run.
pub open spec fn told<E>(
    runs: Map<Seq<char>, ActiveView<E>>,
    run: Seq<char>,
    event: E,
    terminal: bool,
    answers: Seq<bool>,
) -> Map<Seq<char>, ActiveView<E>> {
    if open_to(runs, run) {
        handed(runs, run, same(event, runs[run].listeners.len()), terminal, answers)
    } else {
        runs
    }
}

/// What was sent after an event was sent to those who listen to a run: nothing more where the run
/// is not active, or the event that ends it was published.
pub open spec fn said_told<E>(
    said: Seq<Sent<E>>,
    runs: Map<Seq<char>, ActiveView<E>>,
    run: Seq<char>,
    event: E,
    answers: Seq<bool>,
) -> Seq<Sent<E>> {
    if open_to(runs, run) {
        said + sends(
            runs[run].listeners,
            same(event, runs[run].listeners.len()),
            answers,
        )
    } else {
        said
    }
}

impl<E> RunRegistry<E> {
    /// How many listen to a run that takes events to publish.
    fn listeners(&self, run_id: &RunId) -> (count: Option<usize>)
        requires
            self.wf(),
        ensures
            count is Some <==> open_to(self@, run_id@),
            count matches Some(count) ==> count == self@[run_id@].listeners.len(),
    {
        match self.inner.get(run_id) {
            Some(run) => if run.terminal_published {
                None
            } else {
                Some(run.listeners.len())
            },
            None => None,
        }
    }

    fn hand(&mut self, run_id: &RunId, copies: Vec<E>, terminal: bool) -> (answers: Ghost<
        Seq<bool>,
    >)
        requires
            old(self).wf(),
            open_to(old(self)@, run_id@),
            copies@.len() == old(self)@[run_id@].listeners.len(),
        ensures
            final(self).wf(),
            final(self).flagged() == old(self).flagged(),
            answers@.len() == copies@.len(),
            final(self).said() == old(self).said() + sends(
                old(self)@[run_id@].listeners,
                copies@.reverse(),
                answers@,
            ),
            final(self)@ == handed(old(self)@, run_id@, copies@.reverse(), terminal, answers@),
    {
        let ghost before = self@;
        let mut given: Ghost<Seq<bool>> = Ghost(Seq::empty());
        if let Some(run) = self.inner.get_mut(run_id) {
            let answers = offer_all(&mut run.listeners, &mut self.wire, copies);
            proof {
                lemma_kept_views(run.listeners@, answers@);
            }
            retain_taken(&mut run.listeners, &answers);
            if terminal {
                run.terminal_published = true;
            }
            given = Ghost(answers@);
        }
        assert(self@ =~= handed(before, run_id@, copies@.reverse(), terminal, given@));
        given
    }
}

impl<E: RunEvent> RunRegistry<E> {
    /// Sends an event, as it is, to those who listen to an active run, unless the event that ends
    /// it was published.
    pub(crate) fn tell(&mut self, run_id: &RunId, event: &E, terminal: bool) -> (answers: Ghost<Seq<bool>>)
        requires
            old(self).wf(),
        ensures
            final(self).wf(),
            final(self).flagged() == old(self).flagged(),
            final(self)@ == told(old(self)@, run_id@, *event, terminal, answers@),
            final(self).said() == said_told(
                old(self).said(),
                old(self)@,
                run_id@,
                *event,
                answers@,
            ),
    {
        let count: usize = match self.listeners(run_id) {
            Some(count) => count,
            None => {
                return Ghost(Seq::empty());
            },
        };
        let mut copies: Vec<E> = Vec::new();
        while copies.len() < count
            invariant
                copies@.len() <= count,
                copies@ == same(*event, copies@.len()),
            decreases count - copies@.len(),
        {
            let ghost known = copies@;
            copies.push(event.copy());
            assert(copies@ =~= same(*event, known.len() + 1));
        }
        assert(copies@.reverse() =~= same(*event, count as nat));
        self.hand(run_id, copies, terminal)
    }
}

impl<E: Clone> RunRegistry<E> {
    fn copies(event: &E, count: usize) -> (copies: Vec<E>)
        ensures
            copies@.len() == count,
            forall|i: int| 0 <= i < copies@.len() ==> cloned::<E>(*event, #[trigger] copies@[i]),
    {
        let mut copies: Vec<E> = Vec::new();
        while copies.len() < count
            invariant
                copies@.len() <= count,
                forall|i: int|
                    0 <= i < copies@.len() ==> cloned::<E>(*event, #[trigger] copies@[i]),
            decreases count - copies@.len(),
        {
            copies.push(event.clone());
        }
        copies
    }

    /// Sends an event to those who listen to an active run, unless the event that ends it was
    /// published. Those whose channel does not take it listen no more.
    pub fn publish(&mut self, run_id: &RunId, event: E)
        requires
            old(self).wf(),
        ensures
            final(self).wf(),
            final(self).flagged() == old(self).flagged(),
            !open_to(old(self)@, run_id@) ==> final(self)@ == old(self)@ && final(self).said()
                == old(self).said(),
            open_to(old(self)@, run_id@) ==> exists|copies: Seq<E>, answers: Seq<bool>|
                cloned_to(old(self)@, run_id@, event, copies, answers) && final(self)@
                    == #[trigger] handed(old(self)@, run_id@, copies, false, answers)
                    && final(self).said() == old(self).said() + sends(
                    old(self)@[run_id@].listeners,
                    copies,
                    answers,
                ),
    {
        if let Some(count) = self.listeners(run_id) {
            let copies = Self::copies(&event, count);
            let ghost before = self@;
            let ghost all = copies@.reverse();
            let answers = self.hand(run_id, copies, false);
            proof {
                assert(cloned_to(before, run_id@, event, all, answers@));
            }
        }
    }

    /// Sends the event that ends a run to those who listen to it, once. The answer is whether it
    /// was the first.
    pub fn publish_terminal(&mut self, run_id: &RunId, event: E) -> (first: bool)
        requires
            old(self).wf(),
        ensures
            final(self).wf(),
            final(self).flagged() == old(self).flagged(),
            first == open_to(old(self)@, run_id@),
            !first ==> final(self)@ == old(self)@ && final(self).said() == old(self).said(),
            first ==> exists|copies: Seq<E>, answers: Seq<bool>|
                cloned_to(old(self)@, run_id@, event, copies, answers) && final(self)@
                    == #[trigger] handed(old(self)@, run_id@, copies, true, answers)
                    && final(self).said() == old(self).said() + sends(
                    old(self)@[run_id@].listeners,
                    copies,
                    answers,
                ),
    {
        match self.listeners(run_id) {
            Some(count) => {
                let copies = Self::copies(&event, count);
                let ghost before = self@;
                let ghost all = copies@.reverse();
                let answers = self.hand(run_id, copies, true);
                proof {
                    assert(cloned_to(before, run_id@, event, all, answers@));
                }
                true
            },
            None => false,
        }
    }
}

} // verus!
