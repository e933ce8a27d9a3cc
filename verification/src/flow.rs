//! The decisions of a lifecycle between the calls it makes to a store: each takes what the store
//! answered, and leaves the registry of active runs as it is to be.

use vstd::prelude::*;

use tokio::sync::mpsc::UnboundedSender;

use crate::channel::Sent;
use crate::error::{failure, seen, seen_opt, ErrorView, MachineError};
use crate::ids::{RunId, SessionId};
use crate::life_view::{
    append_refusal, built_events_refusal, built_refusal, cancel_answer, counted, finish_event_refusal,
    plan_refusal, renumbered, settled, told_all, uncounted, AppendEventResult, StartRunRejection,
    StartRunResultView,
};
use crate::model::{first_failure, lemma_first_failure};
use crate::registry::{
    fresh, has_numbers, said_told, stopped, told, ActiveView, RunHandle, RunRegistry,
};
use crate::store::{
    CommitPlan, FinishRunResult, RunCommitResult, RunEvent, RunFinish, RunLookup, StoreStartResult,
    StoreStartResultView,
};
use crate::text::opt;
use crate::validate::any_terminal;

verus! {

/// How the start of a run ended.
#[derive(Debug)]
pub enum StartRunResult {
    /// The run was started.
    Started,
    /// The run had been started before.
    Existing(RunLookup),
    /// The run was not started here.
    NotRegistered(StartRunRejection),
}

impl View for StartRunResult {
    type V = StartRunResultView;

    open spec fn view(&self) -> StartRunResultView {
        match *self {
            StartRunResult::Started => StartRunResultView::Started,
            StartRunResult::Existing(lookup) => StartRunResultView::Existing(lookup@),
            StartRunResult::NotRegistered(rejection) => StartRunResultView::NotRegistered(
                rejection,
            ),
        }
    }
}

/// Registers a run that is to be started.
pub fn enlist<E>(
    registry: &mut RunRegistry<E>,
    run_id: RunId,
    handle: RunHandle,
    stream_sender: Option<UnboundedSender<E>>,
    max_in_flight: usize,
) -> (rejection: Option<StartRunRejection>)
    requires
        old(registry).wf(),
        handle@.among(old(registry).flagged()),
    ensures
        final(registry).wf(),
        final(registry).said() == old(registry).said(),
        final(registry).flagged() == old(registry).flagged(),
        rejection == if old(registry)@.contains_key(run_id@) {
            Some(StartRunRejection::RunAlreadyActive)
        } else if old(registry)@.len() >= max_in_flight {
            Some(StartRunRejection::CapacityExceeded)
        } else {
            None
        },
        final(registry)@ == if rejection is None {
            old(registry)@.insert(run_id@, fresh(handle@, stream_sender))
        } else {
            old(registry)@
        },
{
    match registry.try_insert(run_id, handle, stream_sender, max_in_flight) {
        Ok(()) => None,
        Err(error) => match error {
            MachineError::CapacityExceeded => Some(StartRunRejection::CapacityExceeded),
            _ => Some(StartRunRejection::RunAlreadyActive),
        },
    }
}

/// Answers the start of a run with what the store answered. A run that the store did not start is
/// taken off again.
pub fn settle_start<E>(
    registry: &mut RunRegistry<E>,
    run_id: &RunId,
    result: Result<StoreStartResult, MachineError>,
) -> (settled: Result<StartRunResult, MachineError>)
    requires
        old(registry).wf(),
    ensures
        final(registry).wf(),
        final(registry).said() == old(registry).said(),
        final(registry).flagged() == old(registry).flagged(),
        final(registry)@ == if seen(result) == Ok::<StoreStartResultView, ErrorView>(
            StoreStartResultView::Created,
        ) {
            old(registry)@
        } else {
            old(registry)@.remove(run_id@)
        },
        seen(settled) == match seen(result) {
            Ok(StoreStartResultView::Created) => Ok(StartRunResultView::Started),
            Ok(StoreStartResultView::Existing(lookup)) => Ok(StartRunResultView::Existing(lookup)),
            Err(error) => Err(error),
        },
{
    match result {
        Ok(StoreStartResult::Created) => Ok(StartRunResult::Started),
        Ok(StoreStartResult::Existing(lookup)) => {
            registry.remove(run_id);
            Ok(StartRunResult::Existing(lookup))
        },
        Err(error) => {
            registry.remove(run_id);
            Err(error)
        },
    }
}

/// Whether a run has so many event numbers left to give. One that is not active has none to give,
/// and none to run out of.
pub fn numbers_left<E>(registry: &RunRegistry<E>, run_id: &RunId, count: usize) -> (left: bool)
    requires
        registry.wf(),
    ensures
        left == has_numbers(registry@, run_id@, count as nat),
{
    match registry.last_seq(run_id) {
        Some(seq) => if count as u64 > i64::MAX as u64 {
            false
        } else {
            seq <= 0 || count as i64 <= i64::MAX - seq
        },
        None => true,
    }
}

/// Asks a run to stop that the store has found or not: one that is active here, and has not ended, is
/// asked by its flag.
pub fn cancel_active<E>(
    registry: &mut RunRegistry<E>,
    run_id: &RunId,
    lookup: Option<RunLookup>,
) -> (result: Result<Option<RunHandle>, MachineError>)
    requires
        old(registry).wf(),
    ensures
        final(registry).wf(),
        final(registry).said() == old(registry).said(),
        final(registry)@ == old(registry)@,
        seen_opt(result) == cancel_answer(old(registry)@, run_id@, opt(lookup)),
        final(registry).flagged() == if cancel_answer(old(registry)@, run_id@, opt(lookup)) matches Ok(
            Some(_),
        ) {
            stopped(old(registry)@, old(registry).flagged(), run_id@)
        } else {
            old(registry).flagged()
        },
{
    let lookup = match lookup {
        Some(lookup) => lookup,
        None => {
            return Err(MachineError::RunNotFound);
        },
    };
    if lookup.status.is_terminal() {
        return Ok(None);
    }
    match registry.request_cancel(run_id) {
        Some(handle) => Ok(Some(handle)),
        None => Err(MachineError::NotOwner { owner: lookup.owner }),
    }
}

/// Gives out the next event number of a run that the store has found.
pub fn allot<E>(registry: &mut RunRegistry<E>, run_id: &RunId, found: bool) -> (seq: Option<i64>)
    requires
        old(registry).wf(),
        old(registry)@.contains_key(run_id@) ==> old(registry)@[run_id@].seq
            < i64::MAX,
    ensures
        final(registry).wf(),
        final(registry).said() == old(registry).said(),
        final(registry).flagged() == old(registry).flagged(),
        match seq {
            Some(seq) => seq > i64::MIN && found && old(registry)@.contains_key(run_id@) && seq == old(registry)@[run_id@].seq + 1 && final(registry)@ == renumbered(
                old(registry)@,
                run_id@,
                seq as int,
            ),
            None => !(found && old(registry)@.contains_key(run_id@)) && final(registry)@ == old(registry)@,
        },
{
    if !found {
        return None;
    }
    proof {
        registry.lemma_numbers_fit();
    }
    registry.next_seq(run_id)
}

/// Takes back the event number that was given out last.
pub fn take_back<E>(registry: &mut RunRegistry<E>, run_id: &RunId, seq: i64)
    requires
        old(registry).wf(),
        old(registry)@.contains_key(run_id@),
        old(registry)@[run_id@].seq == seq,
        seq > i64::MIN,
    ensures
        final(registry).wf(),
        final(registry).said() == old(registry).said(),
        final(registry).flagged() == old(registry).flagged(),
        final(registry)@ == renumbered(old(registry)@, run_id@, seq - 1),
{
    let _ = registry.rewind_seq(run_id, seq);
}

/// An event must be appended to the run and under the number that it was built for. Where it is
/// not, the number is taken back.
pub fn check_append<E: RunEvent>(
    registry: &mut RunRegistry<E>,
    run_id: &RunId,
    event: &E,
    seq: i64,
) -> (result: Result<(), MachineError>)
    requires
        old(registry).wf(),
        old(registry)@.contains_key(run_id@),
        old(registry)@[run_id@].seq == seq,
        seq > i64::MIN,
    ensures
        final(registry).wf(),
        final(registry).said() == old(registry).said(),
        final(registry).flagged() == old(registry).flagged(),
        failure(result) == append_refusal(run_id@, *event, seq as int),
        final(registry)@ == if result is Ok {
            old(registry)@
        } else {
            renumbered(old(registry)@, run_id@, seq - 1)
        },
{
    if *event.run_id() != *run_id {
        take_back(registry, run_id, seq);
        return Err(MachineError::invalid_run_event("event run_id does not match target run"));
    }
    if event.seq() != seq {
        take_back(registry, run_id, seq);
        return Err(MachineError::invalid_run_event("event seq does not match allocated seq"));
    }
    if event.is_terminal() {
        take_back(registry, run_id, seq);
        return Err(MachineError::invalid_run_event("append_event does not accept terminal events"));
    }
    Ok(())
}

/// Answers an event with whether the store recorded it: it is sent to those who listen, or the run
/// has ended and is taken off.
pub fn settle_append<E: RunEvent>(
    registry: &mut RunRegistry<E>,
    run_id: &RunId,
    event: E,
    recorded: bool,
) -> (result: AppendEventResult<E>)
    requires
        old(registry).wf(),
    ensures
        final(registry).wf(),
        final(registry).flagged() == old(registry).flagged(),
        result == if recorded {
            AppendEventResult::Recorded(event)
        } else {
            AppendEventResult::Skipped
        },
        recorded ==> exists|answers: Seq<bool>|
            final(registry)@ == #[trigger] told(old(registry)@, run_id@, event, false, answers)
                && final(registry).said() == said_told(
                old(registry).said(),
                old(registry)@,
                run_id@,
                event,
                answers,
            ),
        !recorded ==> final(registry)@ == old(registry)@.remove(run_id@) && final(registry).said()
            == old(registry).said(),
{
    if recorded {
        let answers = registry.tell(run_id, &event, false);
        assert(registry@ == told(old(registry)@, run_id@, event, false, answers@));
        AppendEventResult::Recorded(event)
    } else {
        registry.remove(run_id);
        AppendEventResult::Skipped
    }
}

/// An event must end the run that it was built for, under its number.
pub fn validate_finish_event<E: RunEvent, D>(
    finish: &RunFinish<D>,
    event: &E,
    seq: i64,
) -> (result: Result<(), MachineError>)
    ensures
        failure(result) == finish_event_refusal(finish@, *event, seq as int),
{
    if *event.run_id() != finish.run_id {
        return Err(MachineError::invalid_run_event("event run_id does not match target run"));
    }
    if *event.session_id() != finish.session_id {
        return Err(MachineError::invalid_run_event("event session_id does not match target run"));
    }
    if event.seq() != seq {
        return Err(MachineError::invalid_run_event("event seq does not match allocated seq"));
    }
    if !event.is_terminal() {
        return Err(MachineError::invalid_run_event("finish_run requires a terminal event"));
    }
    Ok(())
}

/// Sends the event that ended a run to those who listen, and takes the run off.
pub fn settle_finish<E: RunEvent>(
    registry: &mut RunRegistry<E>,
    run_id: &RunId,
    result: &FinishRunResult<E>,
)
    requires
        old(registry).wf(),
    ensures
        final(registry).wf(),
        final(registry).flagged() == old(registry).flagged(),
        exists|answers: Seq<bool>|
            final(registry).said() == #[trigger] said_told(
                old(registry).said(),
                old(registry)@,
                run_id@,
                result.event(),
                answers,
            ),
        final(registry)@ == old(registry)@.remove(run_id@),
{
    let answers = registry.tell(run_id, result.terminal_event(), true);
    registry.remove(run_id);
    proof {
        assert(registry@ =~= old(registry)@.remove(run_id@));
        assert(registry.said() == said_told(
            old(registry).said(),
            old(registry)@,
            run_id@,
            result.event(),
            answers@,
        ));
    }
}

/// A plan must write something, and end no other run than the one that commits.
pub fn validate_plan<D>(run_id: &RunId, session_id: &SessionId, plan: &CommitPlan<D>) -> (result:
    Result<(), MachineError>)
    ensures
        failure(result) == plan_refusal(run_id@, session_id@, plan@),
{
    if plan.event_count == 0 && plan.effects.len() == 0 && plan.items.len() == 0
        && plan.entries.len() == 0 {
        return Err(
            MachineError::invalid_run_event("commit requires an event, effect, item, or entry"),
        );
    }
    if let Some(finish) = &plan.finish {
        if !finish.status.is_terminal() {
            return Err(MachineError::invalid_run_event("finish_run requires a terminal status"));
        }
        if finish.run_id != *run_id || finish.session_id != *session_id {
            return Err(
                MachineError::invalid_run_event("finish target does not match committed run"),
            );
        }
    }
    Ok(())
}

/// Gives out the next event numbers of a run, and says which was the last before them. A run that
/// is not active has none to give.
pub fn allot_many<E>(registry: &mut RunRegistry<E>, run_id: &RunId, count: usize) -> (base: Option<
    i64,
>)
    requires
        old(registry).wf(),
        old(registry)@.contains_key(run_id@) ==> count <= i64::MAX && old(registry)@[run_id@].seq
            + count <= i64::MAX,
    ensures
        final(registry).wf(),
        final(registry).said() == old(registry).said(),
        final(registry).flagged() == old(registry).flagged(),
        base is None <==> count > 0 && !old(registry)@.contains_key(run_id@),
        base matches Some(base) ==> count <= i64::MAX && base + count <= i64::MAX,
        base is None || count == 0 ==> final(registry)@ == old(registry)@,
        base is Some && count > 0 ==> {
            &&& base->0 == old(registry)@[run_id@].seq
            &&& final(registry)@ == renumbered(
                old(registry)@,
                run_id@,
                base->0 + count,
            )
        },
{
    let ghost before = registry@;
    proof {
        registry.lemma_numbers_fit();
    }
    if count == 0 {
        return Some(0);
    }
    let mut base: i64 = 0;
    let mut i: usize = 0;
    while i < count
        invariant
            i <= count,
            registry.wf(),
            registry.said() == old(registry).said(),
            registry.flagged() == old(registry).flagged(),
            before == old(registry)@,
            before.contains_key(run_id@) ==> count <= i64::MAX && before[run_id@].seq + count
                <= i64::MAX
                && before[run_id@].seq >= i64::MIN,
            i == 0 ==> registry@ == before,
            i > 0 ==> before.contains_key(run_id@) && base == before[run_id@].seq && registry@
                == renumbered(before, run_id@, base + i),
        decreases count - i,
    {
        match allot(registry, run_id, true) {
            Some(seq) => {
                if i == 0 {
                    base = seq - 1;
                }
                proof {
                    assert(registry@ =~= renumbered(before, run_id@, base + i + 1));
                }
            },
            None => {
                return None;
            },
        }
        i = i + 1;
    }
    Some(base)
}

/// Takes back event numbers that were given out together.
pub fn take_back_many<E>(registry: &mut RunRegistry<E>, run_id: &RunId, base: i64, count: usize)
    requires
        old(registry).wf(),
        count > 0 ==> {
            &&& old(registry)@.contains_key(run_id@)
            &&& old(registry)@[run_id@].seq == base + count
            &&& count <= i64::MAX
            &&& base + count <= i64::MAX
        },
    ensures
        final(registry).wf(),
        final(registry).said() == old(registry).said(),
        final(registry).flagged() == old(registry).flagged(),
        final(registry)@ == uncounted(old(registry)@, run_id@, count as nat, base as int),
{
    let ghost before = registry@;
    let mut left: usize = count;
    proof {
        if count > 0 {
            assert(before =~= renumbered(before, run_id@, base + count));
        }
    }
    while left > 0
        invariant
            left <= count,
            registry.wf(),
            registry.said() == old(registry).said(),
            registry.flagged() == old(registry).flagged(),
            count > 0 ==> before.contains_key(run_id@) && count <= i64::MAX && base + count
                <= i64::MAX && registry@ == renumbered(before, run_id@, base + left),
            count == 0 ==> registry@ == before,
        decreases left,
    {
        take_back(registry, run_id, base + left as i64);
        left = left - 1;
        proof {
            assert(registry@ =~= renumbered(before, run_id@, base + left));
        }
    }
}

/// Events must be committed to the run and under the numbers that they were built for, and end it
/// exactly if the commit does.
pub fn validate_built_events<E: RunEvent, D>(
    run_id: &RunId,
    session_id: &SessionId,
    finish: &Option<RunFinish<D>>,
    events: &Vec<E>,
    base: i64,
) -> (result: Result<(), MachineError>)
    requires
        events@.len() <= i64::MAX,
        base + events@.len() <= i64::MAX,
    ensures
        failure(result) == built_events_refusal(
            run_id@,
            session_id@,
            opt(*finish),
            events@,
            base as int,
        ),
{
    let ghost check = |i: int| built_refusal(run_id@, session_id@, events@[i], base + 1 + i);
    let mut i: usize = 0;
    while i < events.len()
        invariant
            i <= events@.len(),
            events@.len() <= i64::MAX,
            base + events@.len() <= i64::MAX,
            check == |i: int| built_refusal(run_id@, session_id@, events@[i], base + 1 + i),
            first_failure(i as nat, check) is None,
        decreases events@.len() - i,
    {
        let event = &events[i];
        let seq: i64 = base + 1 + i as i64;
        let mut refused: Option<MachineError> = None;
        if *event.run_id() != *run_id {
            refused = Some(
                MachineError::invalid_run_event("event run_id does not match target run"),
            );
        } else if *event.session_id() != *session_id {
            refused = Some(
                MachineError::invalid_run_event("event session_id does not match target run"),
            );
        } else if event.seq() != seq {
            refused = Some(
                MachineError::invalid_run_event("event seq does not match allocated seq"),
            );
        }
        if let Some(error) = refused {
            proof {
                lemma_first_failure(events@.len(), check, i as nat);
            }
            return Err(error);
        }
        i = i + 1;
    }
    match finish {
        Some(finish) => {
            if events.len() == 0 {
                return Err(
                    MachineError::invalid_run_event("finish commit requires a terminal event"),
                );
            }
            if any_terminal(events, events.len() - 1) {
                return Err(
                    MachineError::invalid_run_event("only the last commit event may be terminal"),
                );
            }
            validate_finish_event(finish, &events[events.len() - 1], base + events.len() as i64)
        },
        None => {
            if any_terminal(events, events.len()) {
                return Err(
                    MachineError::invalid_run_event(
                        "non-finish commit does not accept terminal events",
                    ),
                );
            }
            Ok(())
        },
    }
}

/// Sends events of an active run, in order, to those who listen.
fn announce_all<E: RunEvent>(
    registry: &mut RunRegistry<E>,
    run_id: &RunId,
    events: &Vec<E>,
    closing: bool,
) -> (answers: Ghost<Seq<Seq<bool>>>)
    requires
        old(registry).wf(),
    ensures
        final(registry).wf(),
        final(registry).flagged() == old(registry).flagged(),
        (final(registry)@, final(registry).said()) == told_all(
            old(registry)@,
            old(registry).said(),
            run_id@,
            events@,
            closing,
            answers@,
        ),
{
    let ghost before = registry@;
    let ghost said = registry.said();
    let mut answers: Ghost<Seq<Seq<bool>>> = Ghost(Seq::empty());
    let mut i: usize = 0;
    while i < events.len()
        invariant
            i <= events@.len(),
            registry.wf(),
            registry.flagged() == old(registry).flagged(),
            answers@.len() == i,
            (registry@, registry.said()) == told_all(
                before,
                said,
                run_id@,
                events@.take(i as int),
                closing,
                answers@,
            ),
        decreases events@.len() - i,
    {
        let terminal = closing && events[i].is_terminal();
        let given = registry.tell(run_id, &events[i], terminal);
        let ghost known = answers@;
        answers = Ghost(known.push(given@));
        proof {
            assert(events@.take(i + 1).drop_last() =~= events@.take(i as int));
            lemma_told_all(
                before,
                said,
                run_id@,
                events@.take(i as int),
                closing,
                known,
                answers@,
            );
        }
        i = i + 1;
    }
    assert(events@.take(events@.len() as int) =~= events@);
    answers
}

/// Only the answers to events that were sent matter.
proof fn lemma_told_all<E: RunEvent>(
    active: Map<Seq<char>, ActiveView<E>>,
    said: Seq<Sent<E>>,
    run: Seq<char>,
    events: Seq<E>,
    closing: bool,
    answers: Seq<Seq<bool>>,
    more: Seq<Seq<bool>>,
)
    requires
        events.len() <= answers.len() <= more.len(),
        forall|i: int| 0 <= i < events.len() ==> answers[i] == more[i],
    ensures
        told_all(active, said, run, events, closing, answers) == told_all(
            active,
            said,
            run,
            events,
            closing,
            more,
        ),
    decreases events.len(),
{
    if events.len() > 0 {
        lemma_told_all(active, said, run, events.drop_last(), closing, answers, more);
    }
}

/// Sending events to those who listen to a run changes no other run.
pub proof fn lemma_others_untold<E: RunEvent>(
    active: Map<Seq<char>, ActiveView<E>>,
    said: Seq<Sent<E>>,
    run: Seq<char>,
    events: Seq<E>,
    closing: bool,
    answers: Seq<Seq<bool>>,
)
    ensures
        told_all(active, said, run, events, closing, answers).0.remove(run) == active.remove(run),
    decreases events.len(),
{
    if events.len() > 0 {
        let shorter = events.drop_last();
        lemma_others_untold(active, said, run, shorter, closing, answers);
        let before = told_all(active, said, run, shorter, closing, answers).0;
        let after = told_all(active, said, run, events, closing, answers).0;
        assert(after.remove(run) =~= before.remove(run));
    }
}

/// Answers a commit with what the store answered: the events are published, a run that has ended
/// is taken off, and where the commit was refused the event numbers are taken back.
pub fn settle_commit<E: RunEvent>(
    registry: &mut RunRegistry<E>,
    run_id: &RunId,
    base: i64,
    count: usize,
    result: &Result<RunCommitResult<E>, MachineError>,
)
    requires
        old(registry).wf(),
        count > 0 ==> {
            &&& old(registry)@.contains_key(run_id@)
            &&& old(registry)@[run_id@].seq == base + count
            &&& count <= i64::MAX
            &&& base + count <= i64::MAX
        },
    ensures
        final(registry).wf(),
        final(registry).flagged() == old(registry).flagged(),
        exists|answers: Seq<Seq<bool>>|
            (final(registry)@, final(registry).said()) == #[trigger] settled(
                uncounted(old(registry)@, run_id@, count as nat, base as int),
                old(registry).said(),
                run_id@,
                count as nat,
                seen(*result),
                answers,
            ),
{
    let ghost now = registry@;
    let ghost said = registry.said();
    let ghost before = uncounted(now, run_id@, count as nat, base as int);
    let mut answers: Ghost<Seq<Seq<bool>>> = Ghost(Seq::empty());
    proof {
        assert(counted(before, run_id@, count as nat) =~= now);
    }
    match result {
        Err(_) => {
            take_back_many(registry, run_id, base, count);
        },
        Ok(RunCommitResult::Recorded(events)) => {
            answers = announce_all(registry, run_id, events, false);
        },
        Ok(RunCommitResult::Finished { events, .. }) => {
            answers = announce_all(registry, run_id, events, true);
            proof {
                lemma_others_untold(now, said, run_id@, events@, true, answers@);
            }
            registry.remove(run_id);
            assert(registry@ =~= before.remove(run_id@));
        },
        Ok(RunCommitResult::Skipped) => {
            registry.remove(run_id);
            assert(registry@ =~= before.remove(run_id@));
        },
    }
    assert((registry@, registry.said()) == settled(
        before,
        said,
        run_id@,
        count as nat,
        seen(*result),
        answers@,
    ));
}

} // verus!
