//! How a runtime without transactions records what a turn tells.

use vstd::prelude::*;

use crate::error::{ErrorView, MachineError};
use crate::life_view::AppendEventResult;
use crate::payload::{failed, failed_ending, Ending, EndingView, EventRecord, Payload, PayloadView};
use crate::store::RunStatus;

verus! {

/// How a runtime stands with a run.
#[derive(Debug)]
pub enum BridgeState<V> {
    /// It waits for what the turn tells next.
    Idle,
    /// It waits for an event to be appended.
    Appending { event: V },
    /// It waits for the run to be ended.
    Finishing { event: V },
    /// It passes something on.
    Sending,
    /// It passes the end on.
    SendingEnd,
    /// The run has ended.
    Over,
}

/// What a runtime is told of a run.
#[derive(Debug)]
pub enum BridgeEvent<V> {
    /// The turn has told something, and this is how it is recorded.
    Told(Result<EventRecord, MachineError>, V),
    /// What became of the event, or of the end.
    Recorded(Result<(), MachineError>),
    /// Whether what was passed on was received.
    Sent(bool),
    /// The turn tells nothing any more.
    StreamClosed,
    /// Nobody receives any more.
    ReceiverClosed,
}

/// What a runtime is to do for a run.
#[derive(Debug)]
pub enum BridgeAction<V> {
    /// Wait for what the turn tells next.
    Wait,
    /// Append an event.
    Append(Payload),
    /// End the run.
    Finish(Payload, Ending),
    /// Pass something on.
    Send(V),
    /// Cancel the turn, end the run as failed, and tell the error.
    Abort(MachineError, Payload, Ending),
    /// Ask the run to stop, cancel the turn, and end the run as cancelled.
    Cancel(Payload, Ending),
    /// Stop.
    Stop,
}

/// The mathematical view of [`BridgeAction`].
pub enum BridgeActionView<V> {
    Wait,
    Append(PayloadView),
    Finish(PayloadView, EndingView),
    Send(V),
    Abort(ErrorView, PayloadView, EndingView),
    Cancel(PayloadView, EndingView),
    Stop,
}

impl<V> View for BridgeAction<V> {
    type V = BridgeActionView<V>;

    open spec fn view(&self) -> BridgeActionView<V> {
        match *self {
            BridgeAction::Wait => BridgeActionView::Wait,
            BridgeAction::Append(payload) => BridgeActionView::Append(payload@),
            BridgeAction::Finish(payload, ending) => BridgeActionView::Finish(payload@, ending@),
            BridgeAction::Send(event) => BridgeActionView::Send(event),
            BridgeAction::Abort(error, payload, ending) => BridgeActionView::Abort(
                error@,
                payload@,
                ending@,
            ),
            BridgeAction::Cancel(payload, ending) => BridgeActionView::Cancel(payload@, ending@),
            BridgeAction::Stop => BridgeActionView::Stop,
        }
    }
}

/// The end of a run that failed.
pub open spec fn aborted<V>(error: ErrorView) -> BridgeActionView<V> {
    BridgeActionView::Abort(error, PayloadView::Fail { error: error.message() }, failed(error))
}

/// The end of a run that was cancelled.
pub open spec fn cancelled<V>(reason: Seq<char>) -> BridgeActionView<V> {
    BridgeActionView::Cancel(
        PayloadView::Cancel,
        EndingView { status: RunStatus::Cancelled, reason, code: None },
    )
}

fn abort<V>(error: MachineError) -> (action: BridgeAction<V>)
    ensures
        action@ == aborted::<V>(error@),
{
    let payload = Payload::Fail { error: error.message() };
    let ending = failed_ending(&error);
    BridgeAction::Abort(error, payload, ending)
}

fn cancel<V>(reason: &'static str) -> (action: BridgeAction<V>)
    ensures
        action@ == cancelled::<V>(reason@),
{
    BridgeAction::Cancel(
        Payload::Cancel,
        Ending { status: RunStatus::Cancelled, reason, code: None },
    )
}

/// What became of an event that was appended: a run that has ended takes none.
pub open spec fn appended<E>(result: Result<AppendEventResult<E>, MachineError>) -> Result<
    (),
    MachineError,
> {
    match result {
        Ok(AppendEventResult::Recorded(_)) => Ok(()),
        Ok(AppendEventResult::Skipped) => Err(MachineError::RunNotFound),
        Err(error) => Err(error),
    }
}

/// What became of an event that was appended: a run that has ended takes none.
pub fn append_answer<E>(result: Result<AppendEventResult<E>, MachineError>) -> (answer: Result<
    (),
    MachineError,
>)
    ensures
        answer == appended(result),
{
    match result {
        Ok(AppendEventResult::Recorded(_)) => Ok(()),
        Ok(AppendEventResult::Skipped) => Err(MachineError::RunNotFound),
        Err(error) => Err(error),
    }
}

impl<V> BridgeState<V> {
    /// Whether something can be told now.
    pub open spec fn expects(self, event: BridgeEvent<V>) -> bool {
        match event {
            BridgeEvent::Told(_, _) => self is Idle,
            BridgeEvent::StreamClosed => self is Idle,
            BridgeEvent::ReceiverClosed => self is Idle,
            BridgeEvent::Recorded(_) => self is Appending || self is Finishing,
            BridgeEvent::Sent(_) => self is Sending || self is SendingEnd,
        }
    }

    /// What a runtime does about an event, and how it stands with the run then.
    pub open spec fn next(self, event: BridgeEvent<V>) -> (BridgeState<V>, BridgeActionView<V>) {
        match (self, event) {
            (BridgeState::Idle, BridgeEvent::Told(record, told)) => match record {
                Err(error) => (BridgeState::Over, aborted(error@)),
                Ok(EventRecord::Append(payload)) => (
                    BridgeState::Appending { event: told },
                    BridgeActionView::Append(payload@),
                ),
                Ok(EventRecord::Finish { payload, ending }) => (
                    BridgeState::Finishing { event: told },
                    BridgeActionView::Finish(payload@, ending@),
                ),
            },
            (BridgeState::Idle, BridgeEvent::StreamClosed) => (
                BridgeState::Over,
                cancelled("stream_closed"@),
            ),
            (BridgeState::Idle, BridgeEvent::ReceiverClosed) => (
                BridgeState::Over,
                cancelled("receiver_closed"@),
            ),
            (BridgeState::Appending { event: told }, BridgeEvent::Recorded(answer)) =>
            match answer {
                Ok(_) => (BridgeState::Sending, BridgeActionView::Send(told)),
                Err(error) => (BridgeState::Over, aborted(error@)),
            },
            (BridgeState::Finishing { event: told }, BridgeEvent::Recorded(answer)) =>
            match answer {
                Ok(_) => (BridgeState::SendingEnd, BridgeActionView::Send(told)),
                Err(error) => (BridgeState::Over, aborted(error@)),
            },
            (BridgeState::Sending, BridgeEvent::Sent(received)) => if received {
                (BridgeState::Idle, BridgeActionView::Wait)
            } else {
                (BridgeState::Over, cancelled("receiver_closed"@))
            },
            _ => (BridgeState::Over, BridgeActionView::Stop),
        }
    }

    /// Takes an event that can be told now, and says what is to be done next.
    pub fn step(self, event: BridgeEvent<V>) -> (result: (BridgeState<V>, BridgeAction<V>))
        requires
            self.expects(event),
        ensures
            (result.0, result.1@) == self.next(event),
    {
        match self {
            BridgeState::Idle => match event {
                BridgeEvent::Told(Err(error), _) => (BridgeState::Over, abort(error)),
                BridgeEvent::Told(Ok(EventRecord::Append(payload)), told) => (
                    BridgeState::Appending { event: told },
                    BridgeAction::Append(payload),
                ),
                BridgeEvent::Told(Ok(EventRecord::Finish { payload, ending }), told) => (
                    BridgeState::Finishing { event: told },
                    BridgeAction::Finish(payload, ending),
                ),
                BridgeEvent::StreamClosed => (BridgeState::Over, cancel("stream_closed")),
                BridgeEvent::ReceiverClosed => (BridgeState::Over, cancel("receiver_closed")),
                _ => (BridgeState::Over, BridgeAction::Stop),
            },
            BridgeState::Appending { event: told } => match event {
                BridgeEvent::Recorded(Ok(())) => (BridgeState::Sending, BridgeAction::Send(told)),
                BridgeEvent::Recorded(Err(error)) => (BridgeState::Over, abort(error)),
                _ => (BridgeState::Over, BridgeAction::Stop),
            },
            BridgeState::Finishing { event: told } => match event {
                BridgeEvent::Recorded(Ok(())) => (
                    BridgeState::SendingEnd,
                    BridgeAction::Send(told),
                ),
                BridgeEvent::Recorded(Err(error)) => (BridgeState::Over, abort(error)),
                _ => (BridgeState::Over, BridgeAction::Stop),
            },
            BridgeState::Sending => match event {
                BridgeEvent::Sent(true) => (BridgeState::Idle, BridgeAction::Wait),
                BridgeEvent::Sent(false) => (BridgeState::Over, cancel("receiver_closed")),
                _ => (BridgeState::Over, BridgeAction::Stop),
            },
            BridgeState::SendingEnd => (BridgeState::Over, BridgeAction::Stop),
            BridgeState::Over => (BridgeState::Over, BridgeAction::Stop),
        }
    }
}

} // verus!
