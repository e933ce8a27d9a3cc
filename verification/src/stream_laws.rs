//! What the stream of a turn promises as a whole, with the signals of its steps and its heartbeats.

use vstd::prelude::*;

use crate::run::StepResult;
use crate::runner::{Moved, TurnActionView, TurnEvent, TurnPhase, TurnView};

verus! {

/// What happens while a turn is streamed.
pub enum Happening {
    /// The turn is told something that it waits for.
    Turn(TurnEvent),
    /// It is time for a heartbeat.
    Beat,
    /// The step that is being taken has something to say.
    Signal,
}

/// What a receiver is told.
pub enum Heard {
    /// The turn begins.
    Started,
    /// The turn is alive.
    Beat,
    /// A step begins, under its number.
    StepStarted(nat),
    /// A step has something to say.
    Signal,
    /// A step has ended.
    StepFinished(StepResult),
    /// The turn is complete, interrupted, failed or cancelled.
    Last,
}

/// What a receiver is told of what is to be done for a turn.
pub open spec fn told_of(action: TurnActionView) -> Option<Heard> {
    match action {
        TurnActionView::Announce(n) => Some(Heard::StepStarted(n)),
        TurnActionView::Report(result) => Some(Heard::StepFinished(result)),
        TurnActionView::End(_) => Some(Heard::Last),
        TurnActionView::Cancelled => Some(Heard::Last),
        TurnActionView::Fail(_) => Some(Heard::Last),
        _ => None,
    }
}

/// A turn that is streamed, after what has happened, and what a receiver was told.
pub open spec fn streamed(max_steps: nat, happened: Seq<Happening>) -> (TurnView, Seq<Heard>)
    decreases happened.len(),
{
    if happened.len() == 0 {
        (TurnView::begun(max_steps, true), seq![Heard::Started])
    } else {
        let (turn, heard) = streamed(max_steps, happened.drop_last());
        match happened.last() {
            Happening::Beat => (turn, heard.push(Heard::Beat)),
            Happening::Signal => (turn, heard.push(Heard::Signal)),
            Happening::Turn(event) => {
                let (next, action) = turn.step(event);
                match told_of(action) {
                    Some(told) => (next, heard.push(told)),
                    None => (next, heard),
                }
            },
        }
    }
}

/// Whether something can happen to a turn: it is told what it waits for, a step speaks only while it
/// is being taken, and heartbeats come until the turn is over.
pub open spec fn can_happen(turn: TurnView, happening: Happening) -> bool {
    match happening {
        Happening::Turn(event) => turn.expects(event),
        Happening::Signal => turn.phase is Moving,
        Happening::Beat => !(turn.phase is Over),
    }
}

/// Whether all of it could happen, each in its turn.
pub open spec fn possible(max_steps: nat, happened: Seq<Happening>) -> bool
    decreases happened.len(),
{
    happened.len() == 0 || possible(max_steps, happened.drop_last()) && can_happen(
        streamed(max_steps, happened.drop_last()).0,
        happened.last(),
    )
}

/// Whether the receiver was there all the time.
pub open spec fn received(happened: Seq<Happening>) -> bool {
    forall|i: int|
        0 <= i < happened.len() ==> match #[trigger] happened[i] {
            Happening::Turn(TurnEvent::Told(told)) => told,
            Happening::Turn(TurnEvent::Moved(moved)) => !(moved is Closed),
            _ => true,
        }
}

/// The last that a receiver was told but for heartbeats and signals.
pub open spec fn mark(heard: Seq<Heard>) -> Option<Heard>
    decreases heard.len(),
{
    if heard.len() == 0 {
        None
    } else if heard.last() is Beat || heard.last() is Signal {
        mark(heard.drop_last())
    } else {
        Some(heard.last())
    }
}

/// How many steps a receiver was told to begin.
pub open spec fn begun_steps(heard: Seq<Heard>) -> nat
    decreases heard.len(),
{
    if heard.len() == 0 {
        0
    } else if heard.last() is StepStarted {
        begun_steps(heard.drop_last()) + 1
    } else {
        begun_steps(heard.drop_last())
    }
}

/// Whether what a receiver is told at some point has its place there: the beginning comes first, steps
/// begin one after the other under the numbers from one on, each ends before the next begins, signals
/// come while their step is being taken, and nothing comes after the end.
pub open spec fn in_place(heard: Seq<Heard>, k: int) -> bool {
    let before = mark(heard.take(k));
    match heard[k] {
        Heard::Started => k == 0,
        Heard::Beat => k > 0,
        Heard::StepStarted(n) => k > 0 && (before == Some(Heard::Started) || (before matches Some(
            last,
        ) && last is StepFinished)) && n == begun_steps(heard.take(k + 1)),
        Heard::Signal => before matches Some(last) && last is StepStarted,
        Heard::StepFinished(_) => before matches Some(last) && last is StepStarted,
        Heard::Last => k > 0 && k == heard.len() - 1,
    }
}

/// The stream of a turn goes in order: it begins with the beginning, its steps begin and end one after
/// the other with their signals between, and where its receiver stays, a turn that is over has told
/// its end, once and last.
pub proof fn streams_go_in_order(max_steps: nat, happened: Seq<Happening>)
    requires
        possible(max_steps, happened),
    ensures
        ({
            let (turn, heard) = streamed(max_steps, happened);
            &&& heard.len() > 0 && heard[0] == Heard::Started
            &&& forall|k: int| 0 <= k < heard.len() ==> #[trigger] in_place(heard, k)
            &&& received(happened) && turn.phase is Over ==> heard.last() == Heard::Last
            &&& begun_steps(heard) <= max_steps
        }),
{
    lemma_stream(max_steps, happened);
}

/// How a turn that is streamed stands with what a receiver was told.
pub open spec fn stands(turn: TurnView, heard: Seq<Heard>) -> bool {
    let last = mark(heard);
    match turn.phase {
        TurnPhase::Ready => last == Some(Heard::Started) || (last matches Some(told) && told
            is StepFinished),
        TurnPhase::Reporting(_) => last matches Some(told) && told is StepFinished,
        TurnPhase::Over => true,
        _ => last matches Some(told) && told is StepStarted,
    }
}

proof fn lemma_push(heard: Seq<Heard>, told: Heard)
    requires
        forall|k: int| 0 <= k < heard.len() ==> #[trigger] in_place(heard, k) && !(heard[k] is Last),
        in_place(heard.push(told), heard.len() as int),
    ensures
        forall|k: int|
            0 <= k < heard.push(told).len() ==> #[trigger] in_place(heard.push(told), k),
{
    let more = heard.push(told);
    assert forall|k: int| 0 <= k < more.len() implies #[trigger] in_place(more, k) by {
        if k < heard.len() {
            assert(in_place(heard, k));
            assert(more.take(k) =~= heard.take(k));
            assert(more.take(k + 1) =~= heard.take(k + 1));
        }
    }
}

proof fn lemma_stream(max_steps: nat, happened: Seq<Happening>)
    requires
        possible(max_steps, happened),
    ensures
        ({
            let (turn, heard) = streamed(max_steps, happened);
            &&& turn.sound() && turn.streaming && turn.max_steps == max_steps
            &&& heard.len() > 0 && heard[0] == Heard::Started
            &&& stands(turn, heard)
            &&& begun_steps(heard) == turn.steps
            &&& forall|k: int| 0 <= k < heard.len() ==> #[trigger] in_place(heard, k)
            &&& !(turn.phase is Over) ==> forall|k: int|
                0 <= k < heard.len() ==> !((#[trigger] heard[k]) is Last)
            &&& received(happened) && turn.phase is Over ==> heard.last() == Heard::Last
        }),
    decreases happened.len(),
{
    let (turn, heard) = streamed(max_steps, happened);
    if happened.len() == 0 {
        assert(heard.drop_last() =~= Seq::empty());
        assert(begun_steps(heard.drop_last()) == 0);
        assert(heard.take(1) =~= heard);
        assert(in_place(heard, 0));
    } else {
        let fewer = happened.drop_last();
        lemma_stream(max_steps, fewer);
        let (before, known) = streamed(max_steps, fewer);
        assert(received(happened) ==> received(fewer)) by {
            assert forall|i: int| 0 <= i < fewer.len() implies fewer[i] == happened[i] by {}
        }
        assert(received(happened) ==> match happened[happened.len() - 1] {
            Happening::Turn(TurnEvent::Told(told)) => told,
            Happening::Turn(TurnEvent::Moved(moved)) => !(moved is Closed),
            _ => true,
        });
        if heard.len() > known.len() {
            let told = heard.last();
            assert(heard =~= known.push(told));
            assert(heard.drop_last() =~= known);
            assert(heard.take(known.len() as int) =~= known);
            assert(heard.take(heard.len() as int) =~= heard);
            assert(in_place(heard, known.len() as int));
            assert forall|k: int| 0 <= k < known.len() implies #[trigger] in_place(known, k)
                && !(known[k] is Last) by {}
            lemma_push(known, told);
        }
    }
}

} // verus!
