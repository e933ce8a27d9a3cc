//! Those who listen to a run, and what was sent to them.

use vstd::prelude::*;

use tokio::sync::mpsc::{UnboundedReceiver, UnboundedSender};

use crate::text::views;

verus! {

/// The sending half of a channel of `tokio`.
#[verifier::external_type_specification]
#[verifier::external_body]
#[verifier::reject_recursive_types(T)]
pub struct ExUnboundedSender<T>(tokio::sync::mpsc::UnboundedSender<T>);

/// The receiving half of a channel of `tokio`.
#[verifier::external_type_specification]
#[verifier::external_body]
#[verifier::reject_recursive_types(T)]
pub struct ExUnboundedReceiver<T>(tokio::sync::mpsc::UnboundedReceiver<T>);

/// Someone who listens: the sending half of their channel, and a record of what was sent on it from
/// here. The record grows only where the channel is called.
#[verifier::reject_recursive_types(E)]
pub struct Listener<E> {
    half: UnboundedSender<E>,
    peer: Ghost<Option<UnboundedReceiver<E>>>,
    offered: Ghost<Seq<E>>,
}

/// The mathematical view of [`Listener`].
#[verifier::ext_equal]
#[verifier::reject_recursive_types(E)]
pub struct ListenerView<E> {
    /// The sending half.
    pub half: UnboundedSender<E>,
    /// The receiving half, where the channel was opened here.
    pub peer: Option<UnboundedReceiver<E>>,
    /// The events that were sent on it, in order.
    pub offered: Seq<E>,
}

impl<E> View for Listener<E> {
    type V = ListenerView<E>;

    closed spec fn view(&self) -> ListenerView<E> {
        ListenerView { half: self.half, peer: self.peer@, offered: self.offered@ }
    }
}

/// An event that was sent: on which channel, and whether the channel took it.
#[verifier::ext_equal]
#[verifier::reject_recursive_types(E)]
pub struct Sent<E> {
    /// The sending half of the channel.
    pub to: UnboundedSender<E>,
    /// The event.
    pub event: E,
    /// Whether the channel took it.
    pub taken: bool,
}

/// A record of all that was sent from here. It grows only where a channel is called.
#[verifier::reject_recursive_types(E)]
pub struct Wire<E> {
    sent: Ghost<Seq<Sent<E>>>,
}

impl<E> View for Wire<E> {
    type V = Seq<Sent<E>>;

    closed spec fn view(&self) -> Seq<Sent<E>> {
        self.sent@
    }
}

impl<E> Wire<E> {
    /// Nothing was sent.
    pub fn new() -> (wire: Self)
        ensures
            wire@ == Seq::<Sent<E>>::empty(),
    {
        Wire { sent: Ghost(Seq::empty()) }
    }
}

/// Someone who has not been sent anything.
pub open spec fn newcomer<E>(half: UnboundedSender<E>) -> ListenerView<E> {
    ListenerView { half, peer: None, offered: Seq::empty() }
}

impl<E> Listener<E> {
    /// Someone who listens on a channel that was opened elsewhere.
    pub fn new(half: UnboundedSender<E>) -> (listener: Self)
        ensures
            listener@ == newcomer(half),
    {
        Listener { half, peer: Ghost(None), offered: Ghost(Seq::empty()) }
    }

    /// Calls `tokio::sync::mpsc::unbounded_channel`: the two halves belong to one channel, on which
    /// nothing was sent yet.
    #[verifier::external_body]
    pub(crate) fn open() -> (channel: (Listener<E>, UnboundedReceiver<E>))
        ensures
            channel.0@.peer == Some(channel.1),
            channel.0@.offered == Seq::<E>::empty(),
    {
        let (half, receiver) = tokio::sync::mpsc::unbounded_channel();
        (Listener { half, peer: Ghost(Some(receiver)), offered: Ghost(Seq::empty()) }, receiver)
    }

    /// Calls `UnboundedSender::send` with the event. Whether the channel takes it depends on the
    /// receiving half, which others hold: the answer is what the call says.
    #[verifier::external_body]
    pub(crate) fn offer(&mut self, wire: &mut Wire<E>, event: E) -> (taken: bool)
        ensures
            final(self)@ == (ListenerView { offered: old(self)@.offered.push(event), ..old(self)@ }),
            final(wire)@ == old(wire)@.push(Sent { to: old(self)@.half, event, taken }),
    {
        self.half.send(event).is_ok()
    }
}

/// Those who listen, after each was sent an event.
pub open spec fn offered_all<E>(listeners: Seq<ListenerView<E>>, copies: Seq<E>) -> Seq<
    ListenerView<E>,
> {
    Seq::new(
        listeners.len(),
        |i: int|
            ListenerView { offered: listeners[i].offered.push(copies[i]), ..listeners[i] },
    )
}

/// What is sent where each who listens is sent an event.
pub open spec fn sends<E>(
    listeners: Seq<ListenerView<E>>,
    copies: Seq<E>,
    answers: Seq<bool>,
) -> Seq<Sent<E>> {
    Seq::new(
        listeners.len(),
        |i: int| Sent { to: listeners[i].half, event: copies[i], taken: answers[i] },
    )
}

/// Those of a sequence who took an event.
pub open spec fn kept<T>(all: Seq<T>, answers: Seq<bool>) -> Seq<T>
    decreases all.len(),
{
    if all.len() == 0 {
        Seq::empty()
    } else if answers[all.len() - 1] {
        kept(all.drop_last(), answers).push(all.last())
    } else {
        kept(all.drop_last(), answers)
    }
}

/// Sends each who listens their copy of an event, in order.
pub fn offer_all<E>(listeners: &mut Vec<Listener<E>>, wire: &mut Wire<E>, copies: Vec<E>) -> (answers:
    Vec<bool>)
    requires
        old(listeners)@.len() == copies@.len(),
    ensures
        answers@.len() == copies@.len(),
        views(final(listeners)@) == offered_all(views(old(listeners)@), copies@.reverse()),
        final(wire)@ == old(wire)@ + sends(views(old(listeners)@), copies@.reverse(), answers@),
{
    let ghost before = views(listeners@);
    let ghost said = wire@;
    let ghost all = copies@.reverse();
    let mut copies = copies;
    let mut answers: Vec<bool> = Vec::new();
    let mut i: usize = 0;
    proof {
        assert(said + sends(before, all, answers@).take(0) =~= said);
    }
    while i < listeners.len()
        invariant
            i <= listeners@.len(),
            listeners@.len() == before.len(),
            all.len() == before.len(),
            copies@ == all.reverse().take(all.len() - i),
            answers@.len() == i,
            forall|j: int|
                0 <= j < i ==> (#[trigger] listeners@[j])@ == offered_all(before, all)[j],
            forall|j: int| i <= j < listeners@.len() ==> (#[trigger] listeners@[j])@ == before[j],
            wire@ == said + sends(before, all, answers@).take(i as int),
        decreases listeners@.len() - i,
    {
        let ghost known = answers@;
        if let Some(copy) = copies.pop() {
            let listener = &mut listeners[i];
            let taken = listener.offer(wire, copy);
            answers.push(taken);
            proof {
                assert(copy == all[i as int]);
                assert(said + sends(before, all, answers@).take(i + 1) =~= (said + sends(
                    before,
                    all,
                    known,
                ).take(i as int)).push(sends(before, all, answers@)[i as int]));
                assert(copies@ =~= all.reverse().take(all.len() - i - 1));
            }
        }
        i = i + 1;
    }
    proof {
        assert(views(listeners@) =~= offered_all(before, all));
        assert(sends(before, all, answers@).take(i as int) =~= sends(before, all, answers@));
    }
    answers
}

/// Those who took an event look the same whether they are looked at before or after.
pub proof fn lemma_kept_views<T: View>(all: Seq<T>, answers: Seq<bool>)
    ensures
        views(kept(all, answers)) == kept(views(all), answers),
    decreases all.len(),
{
    if all.len() > 0 {
        lemma_kept_views(all.drop_last(), answers);
        assert(views(all).drop_last() =~= views(all.drop_last()));
        assert(views(kept(all.drop_last(), answers).push(all.last())) =~= views(
            kept(all.drop_last(), answers),
        ).push(all.last()@));
    }
    assert(views(kept(all, answers)) =~= kept(views(all), answers));
}

/// Keeps those who took an event.
pub fn retain_taken<T>(all: &mut Vec<T>, answers: &Vec<bool>)
    requires
        old(all)@.len() == answers@.len(),
    ensures
        final(all)@ == kept(old(all)@, answers@),
{
    let ghost before = all@;
    let mut i: usize = answers.len();
    let mut rest: Vec<T> = Vec::new();
    proof {
        assert(before.take(before.len() as int) =~= before);
        assert(kept(before, answers@) =~= kept(before.take(before.len() as int), answers@)
            + rest@.reverse());
    }
    while i > 0
        invariant
            i <= answers@.len(),
            before.len() == answers@.len(),
            all@ == before.take(i as int),
            kept(before, answers@) == kept(before.take(i as int), answers@) + rest@.reverse(),
        decreases i,
    {
        i = i - 1;
        proof {
            assert(before.take(i + 1).drop_last() =~= before.take(i as int));
        }
        if let Some(one) = all.pop() {
            let ghost known = rest@;
            if answers[i] {
                rest.push(one);
                proof {
                    assert(rest@.reverse() =~= seq![one] + known.reverse());
                    assert(kept(before.take(i + 1), answers@) == kept(
                        before.take(i as int),
                        answers@,
                    ).push(one));
                    assert(kept(before, answers@) =~= kept(before.take(i as int), answers@)
                        + rest@.reverse());
                }
            }
        }
        assert(all@ =~= before.take(i as int));
    }
    assert(kept(before, answers@) =~= rest@.reverse());
    while rest.len() > 0
        invariant
            kept(before, answers@) == all@ + rest@.reverse(),
        decreases rest@.len(),
    {
        let ghost known = rest@;
        let ghost done = all@;
        if let Some(one) = rest.pop() {
            all.push(one);
            proof {
                assert(known.reverse() =~= seq![one] + rest@.reverse());
                assert(done + known.reverse() =~= all@ + rest@.reverse());
            }
        }
    }
    assert(all@ + rest@.reverse() =~= all@);
}

} // verus!
