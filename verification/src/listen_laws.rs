//! What those who listen to a run are promised when events are sent to them.

use vstd::prelude::*;

use tokio::sync::mpsc::UnboundedSender;

use crate::channel::{kept, offered_all, sends, ListenerView, Sent};
use crate::life_view::told_all;
use crate::model::{ends, ends_early};
use crate::registry::{open_to, said_told, same, told, ActiveView};
use crate::store::RunEvent;

verus! {

/// Someone who listens, after they were sent more events.
pub open spec fn heard<E>(listener: ListenerView<E>, events: Seq<E>) -> ListenerView<E> {
    ListenerView { offered: listener.offered + events, ..listener }
}

/// Whether an event was sent on a channel, among what was sent from a point on.
pub open spec fn sent_on<E>(
    said: Seq<Sent<E>>,
    from: nat,
    half: UnboundedSender<E>,
    event: E,
) -> bool {
    exists|k: int|
        from <= k < said.len() && (#[trigger] said[k]).to == half && said[k].event == event
}

/// Whether a channel did not take an event, among what was sent from a point on.
pub open spec fn gone<E>(said: Seq<Sent<E>>, from: nat, half: UnboundedSender<E>) -> bool {
    exists|k: int| from <= k < said.len() && (#[trigger] said[k]).to == half && !said[k].taken
}

/// Whether those who listen afterwards listened before, and were sent some events, once and in
/// order, and nothing else.
pub open spec fn followed<E>(
    before: Seq<ListenerView<E>>,
    after: Seq<ListenerView<E>>,
    events: Seq<E>,
) -> bool {
    forall|i: int|
        0 <= i < after.len() ==> exists|j: int|
            0 <= j < before.len() && #[trigger] after[i] == heard(#[trigger] before[j], events)
}

/// Whether someone who listened still does, with some events sent to them, or has gone.
pub open spec fn served<E>(
    listener: ListenerView<E>,
    after: Seq<ListenerView<E>>,
    events: Seq<E>,
    said: Seq<Sent<E>>,
    from: nat,
) -> bool {
    after.contains(heard(listener, events)) || gone(said, from, listener.half)
}

/// Those who are kept are those who took the event, and no others.
proof fn lemma_kept<T>(all: Seq<T>, answers: Seq<bool>)
    ensures
        forall|i: int|
            0 <= i < kept(all, answers).len() ==> exists|j: int|
                0 <= j < all.len() && answers[j] && #[trigger] kept(all, answers)[i]
                    == #[trigger] all[j],
        forall|j: int|
            0 <= j < all.len() && answers[j] ==> kept(all, answers).contains(#[trigger] all[j]),
    decreases all.len(),
{
    let some = kept(all, answers);
    if all.len() > 0 {
        let shorter = all.drop_last();
        let fewer = kept(shorter, answers);
        lemma_kept(shorter, answers);
        assert forall|i: int| 0 <= i < some.len() implies exists|j: int|
            0 <= j < all.len() && answers[j] && #[trigger] some[i] == #[trigger] all[j] by {
            if i < fewer.len() {
                assert(some[i] == fewer[i]);
                let j = choose|j: int|
                    0 <= j < shorter.len() && answers[j] && fewer[i] == #[trigger] shorter[j];
                assert(all[j] == shorter[j]);
            } else {
                assert(some[i] == all[all.len() - 1]);
            }
        }
        assert forall|j: int| 0 <= j < all.len() && answers[j] implies some.contains(
            #[trigger] all[j],
        ) by {
            if j < shorter.len() {
                assert(shorter[j] == all[j]);
                assert(fewer.contains(shorter[j]));
                let i = choose|i: int| 0 <= i < fewer.len() && fewer[i] == shorter[j];
                assert(some[i] == all[j]);
            } else {
                assert(some[some.len() - 1] == all[j]);
            }
        }
    }
}

/// Sending an event to those who listen reaches each of them: they are sent it, and go on listening
/// where their channel takes it.
pub proof fn telling_reaches_all<E>(
    runs: Map<Seq<char>, ActiveView<E>>,
    said: Seq<Sent<E>>,
    run: Seq<char>,
    event: E,
    terminal: bool,
    answers: Seq<bool>,
)
    requires
        open_to(runs, run),
    ensures
        ({
            let before = runs[run].listeners;
            let after = told(runs, run, event, terminal, answers)[run].listeners;
            let now = said_told(said, runs, run, event, answers);
            &&& said.is_prefix_of(now)
            &&& now.len() == said.len() + before.len()
            &&& followed(before, after, seq![event])
            &&& forall|j: int|
                0 <= j < before.len() ==> sent_on(
                    now,
                    said.len(),
                    (#[trigger] before[j]).half,
                    event,
                ) && served(before[j], after, seq![event], now, said.len())
        }),
{
    let before = runs[run].listeners;
    let copies = same(event, before.len());
    let all = offered_all(before, copies);
    let after = told(runs, run, event, terminal, answers)[run].listeners;
    let now = said_told(said, runs, run, event, answers);
    lemma_kept(all, answers);
    assert forall|j: int| 0 <= j < before.len() implies #[trigger] all[j] == heard(
        before[j],
        seq![event],
    ) by {
        assert(before[j].offered.push(event) =~= before[j].offered + seq![event]);
    }
    assert forall|i: int| 0 <= i < after.len() implies exists|j: int|
        0 <= j < before.len() && #[trigger] after[i] == heard(#[trigger] before[j], seq![event]) by {
        let j = choose|j: int| 0 <= j < all.len() && answers[j] && after[i] == #[trigger] all[j];
        assert(after[i] == heard(before[j], seq![event]));
    }
    assert forall|j: int| 0 <= j < before.len() implies sent_on(
        now,
        said.len(),
        (#[trigger] before[j]).half,
        event,
    ) && served(before[j], after, seq![event], now, said.len()) by {
        let k = said.len() + j;
        assert(now[k] == sends(before, copies, answers)[j]);
        assert(all[j] == heard(before[j], seq![event]));
    }
}

/// Sending events, in order, to those who listen reaches each of them, as long as their channel
/// takes what it is sent.
pub proof fn telling_all_reaches_all<E: RunEvent>(
    runs: Map<Seq<char>, ActiveView<E>>,
    said: Seq<Sent<E>>,
    run: Seq<char>,
    events: Seq<E>,
    closing: bool,
    answers: Seq<Seq<bool>>,
)
    requires
        open_to(runs, run),
        closing ==> !ends_early(events),
    ensures
        ({
            let (then, now) = told_all(runs, said, run, events, closing, answers);
            let before = runs[run].listeners;
            let after = then[run].listeners;
            &&& then == runs.insert(run, then[run])
            &&& then[run] == (ActiveView {
                terminal_published: closing && ends(events),
                listeners: after,
                ..runs[run]
            })
            &&& said.is_prefix_of(now)
            &&& followed(before, after, events)
            &&& forall|j: int|
                0 <= j < before.len() ==> served(
                    #[trigger] before[j],
                    after,
                    events,
                    now,
                    said.len(),
                )
            &&& forall|j: int, e: int|
                0 <= j < before.len() && 0 <= e < events.len() ==> sent_on(
                    now,
                    said.len(),
                    (#[trigger] before[j]).half,
                    #[trigger] events[e],
                ) || gone(now, said.len(), before[j].half)
        }),
    decreases events.len(),
{
    let (then, now) = told_all(runs, said, run, events, closing, answers);
    let before = runs[run].listeners;
    let after = then[run].listeners;
    if events.len() == 0 {
        assert(then =~= runs.insert(run, then[run]));
        assert forall|j: int| 0 <= j < before.len() implies heard(#[trigger] before[j], events)
            == before[j] by {
            assert(before[j].offered + events =~= before[j].offered);
        }
        assert forall|i: int| 0 <= i < after.len() implies exists|j: int|
            0 <= j < before.len() && #[trigger] after[i] == heard(#[trigger] before[j], events) by {
            assert(after[i] == heard(before[i], events));
        }
        assert forall|j: int| 0 <= j < before.len() implies served(
            #[trigger] before[j],
            after,
            events,
            now,
            said.len(),
        ) by {
            assert(after[j] == heard(before[j], events));
        }
    } else {
        let shorter = events.drop_last();
        let event = events.last();
        let (mid_runs, mid_said) = told_all(runs, said, run, shorter, closing, answers);
        if closing {
            assert(!ends(shorter)) by {
                if ends(shorter) {
                    let i = choose|i: int|
                        0 <= i < shorter.len() && (#[trigger] shorter[i]).terminal();
                    assert(events[i].terminal());
                }
            }
            assert(!ends_early(shorter));
            assert(ends(events) == event.terminal()) by {
                if event.terminal() {
                    assert(events[events.len() - 1].terminal());
                }
                if ends(events) {
                    let i = choose|i: int|
                        0 <= i < events.len() && (#[trigger] events[i]).terminal();
                    if i < shorter.len() {
                        assert(shorter[i].terminal());
                    }
                }
            }
        }
        telling_all_reaches_all(runs, said, run, shorter, closing, answers);
        let mid = mid_runs[run].listeners;
        let terminal = closing && event.terminal();
        let given = answers[events.len() - 1];
        telling_reaches_all(mid_runs, mid_said, run, event, terminal, given);
        assert(then =~= runs.insert(run, then[run]));
        assert forall|j: int| 0 <= j < before.len() implies heard(
            heard(#[trigger] before[j], shorter),
            seq![event],
        ) == heard(before[j], events) by {
            assert(before[j].offered + shorter + seq![event] =~= before[j].offered + events);
        }
        assert forall|i: int| 0 <= i < after.len() implies exists|j: int|
            0 <= j < before.len() && #[trigger] after[i] == heard(#[trigger] before[j], events) by {
            let m = choose|m: int|
                0 <= m < mid.len() && after[i] == heard(#[trigger] mid[m], seq![event]);
            let j = choose|j: int|
                0 <= j < before.len() && mid[m] == heard(#[trigger] before[j], shorter);
            assert(after[i] == heard(before[j], events));
        }
        assert forall|j: int| 0 <= j < before.len() && gone(
            mid_said,
            said.len(),
            (#[trigger] before[j]).half,
        ) implies gone(now, said.len(), before[j].half) by {
            let k = choose|k: int|
                said.len() <= k < mid_said.len() && (#[trigger] mid_said[k]).to == before[j].half
                    && !mid_said[k].taken;
            assert(now[k] == mid_said[k]);
        }
        assert forall|j: int| 0 <= j < before.len() implies served(
            #[trigger] before[j],
            after,
            events,
            now,
            said.len(),
        ) && (gone(now, said.len(), before[j].half) || sent_on(
            now,
            said.len(),
            before[j].half,
            event,
        )) by {
            if !gone(mid_said, said.len(), before[j].half) {
                let other = heard(before[j], shorter);
                assert(served(before[j], mid, shorter, mid_said, said.len()));
                let m = choose|m: int| 0 <= m < mid.len() && mid[m] == other;
                assert(sent_on(now, mid_said.len(), mid[m].half, event));
                assert(served(mid[m], after, seq![event], now, mid_said.len()));
                if gone(now, mid_said.len(), mid[m].half) {
                    assert(gone(now, said.len(), before[j].half));
                }
            }
        }
        assert forall|j: int, e: int|
            0 <= j < before.len() && 0 <= e < events.len() implies sent_on(
            now,
            said.len(),
            (#[trigger] before[j]).half,
            #[trigger] events[e],
        ) || gone(now, said.len(), before[j].half) by {
            assert(served(before[j], after, events, now, said.len()));
            if e < shorter.len() {
                assert(shorter[e] == events[e]);
                if sent_on(mid_said, said.len(), before[j].half, shorter[e]) {
                    let k = choose|k: int|
                        said.len() <= k < mid_said.len() && (#[trigger] mid_said[k]).to
                            == before[j].half && mid_said[k].event == shorter[e];
                    assert(now[k] == mid_said[k]);
                }
            }
        }
    }
}

} // verus!
