//! Which runs of a runner go on, and which were cancelled.

use vstd::prelude::*;

use crate::ids::RunId;
use crate::table::Table;

verus! {

#[derive(Debug)]
struct Mark {}

impl View for Mark {
    type V = ();

    closed spec fn view(&self) -> () {
        ()
    }
}

#[derive(Debug)]
struct Control<C> {
    control: C,
}

impl<C> View for Control<C> {
    type V = C;

    closed spec fn view(&self) -> C {
        self.control
    }
}

/// The runs of a runner: the control of each that goes on, and those that were cancelled.
#[derive(Debug)]
pub struct CancelBook<C> {
    cancelled: Table<RunId, Mark>,
    active: Table<RunId, Control<C>>,
}

/// The mathematical view of [`CancelBook`].
#[verifier::ext_equal]
pub struct CancelView<C> {
    /// The runs that were cancelled.
    pub cancelled: Set<Seq<char>>,
    /// The control of each run that goes on.
    pub active: Map<Seq<char>, C>,
}

impl<C> CancelView<C> {
    /// No run goes on, and none was cancelled.
    pub open spec fn empty() -> Self {
        CancelView { cancelled: Set::empty(), active: Map::empty() }
    }

    /// A run is cancelled.
    pub open spec fn cancel(self, run: Seq<char>) -> Self {
        CancelView { cancelled: self.cancelled.insert(run), ..self }
    }

    /// The control of a run that goes on.
    pub open spec fn control(self, run: Seq<char>) -> Option<C> {
        if self.active.contains_key(run) {
            Some(self.active[run])
        } else {
            None
        }
    }

    /// Whether a run was cancelled.
    pub open spec fn was_cancelled(self, run: Seq<char>) -> bool {
        self.cancelled.contains(run)
    }

    /// A run goes on.
    pub open spec fn go_on(self, run: Seq<char>, control: C) -> Self {
        CancelView { active: self.active.insert(run, control), ..self }
    }

    /// A run does not go on any more.
    pub open spec fn leave(self, run: Seq<char>) -> Self {
        CancelView { cancelled: self.cancelled.remove(run), active: self.active.remove(run) }
    }
}

impl<C> View for CancelBook<C> {
    type V = CancelView<C>;

    closed spec fn view(&self) -> CancelView<C> {
        CancelView { cancelled: self.cancelled@.dom(), active: self.active@ }
    }
}

impl<C> CancelBook<C> {
    /// What holds of every book.
    pub closed spec fn wf(&self) -> bool {
        self.cancelled.wf() && self.active.wf()
    }

    /// A book without runs.
    pub fn new() -> (book: Self)
        ensures
            book.wf(),
            book@ == CancelView::<C>::empty(),
    {
        let book = CancelBook { cancelled: Table::new(), active: Table::new() };
        assert(book@ =~= CancelView::<C>::empty());
        book
    }

    /// Cancels a run, before it goes on or while it does. The answer is the control to be cancelled.
    pub fn cancel_run(&mut self, run_id: &RunId) -> (control: Option<&C>)
        requires
            old(self).wf(),
        ensures
            final(self).wf(),
            final(self)@ == old(self)@.cancel(run_id@),
            match control {
                Some(control) => old(self)@.control(run_id@) == Some(*control),
                None => old(self)@.control(run_id@) is None,
            },
    {
        self.cancelled.insert(run_id.clone(), Mark {  });
        assert(self@.cancelled =~= old(self)@.cancelled.insert(run_id@));
        match self.active.get(run_id) {
            Some(held) => Some(&held.control),
            None => None,
        }
    }

    /// Whether a run was cancelled.
    pub fn is_cancelled(&self, run_id: &RunId) -> (cancelled: bool)
        requires
            self.wf(),
        ensures
            cancelled == self@.was_cancelled(run_id@),
    {
        self.cancelled.contains(run_id)
    }

    /// Notes that a run goes on. The answer is whether it was cancelled before, so that its control
    /// is to be cancelled at once.
    pub fn register_active(&mut self, run_id: &RunId, control: C) -> (cancelled: bool)
        requires
            old(self).wf(),
        ensures
            final(self).wf(),
            final(self)@ == old(self)@.go_on(run_id@, control),
            cancelled == old(self)@.was_cancelled(run_id@),
    {
        self.active.insert(run_id.clone(), Control { control });
        self.cancelled.contains(run_id)
    }

    /// Notes that a run does not go on any more, and forgets that it was cancelled.
    pub fn unregister_active(&mut self, run_id: &RunId)
        requires
            old(self).wf(),
        ensures
            final(self).wf(),
            final(self)@ == old(self)@.leave(run_id@),
    {
        self.active.remove(run_id);
        self.cancelled.remove(run_id);
        assert(self@.cancelled =~= old(self)@.cancelled.remove(run_id@));
    }

    /// How many runs go on.
    pub fn active_run_count(&self) -> (count: usize)
        requires
            self.wf(),
        ensures
            count == self@.active.len(),
    {
        proof {
            self.active.lemma_finite();
        }
        self.active.len()
    }

    /// How many runs were cancelled.
    pub fn cancelled_run_count(&self) -> (count: usize)
        requires
            self.wf(),
        ensures
            count == self@.cancelled.len(),
    {
        proof {
            self.cancelled.lemma_finite();
        }
        self.cancelled.len()
    }
}

} // verus!
