//! Handing the removals of a run over, one at a time.
//!
//! Deleting a backup is the caller's work, and it may fail. What is to be
//! done next is decided here: the caller tells how the last action ended
//! and is told the next one. In a dry run every removal is only reported.
//! Otherwise each is deleted in turn, and the first failure ends the run.

use crate::plan::Removal;
use vstd::prelude::*;
use vstd::string::StringExecFns;

verus! {

/// Why a backup could not be deleted.
#[derive(Debug)]
pub struct BackupDeleteError(pub String);

impl View for BackupDeleteError {
    type V = Seq<char>;

    open spec fn view(&self) -> Seq<char> {
        self.0@
    }
}

impl From<String> for BackupDeleteError {
    fn from(s: String) -> (error: BackupDeleteError) {
        BackupDeleteError(s)
    }
}

impl vstd::std_specs::convert::FromSpecImpl<String> for BackupDeleteError {
    open spec fn obeys_from_spec() -> bool {
        true
    }

    open spec fn from_spec(s: String) -> BackupDeleteError {
        BackupDeleteError(s)
    }
}

impl BackupDeleteError {
    /// The error as a line for the user.
    pub fn message(&self) -> (line: String)
        ensures
            line@ == "backup delete: "@ + self@,
    {
        String::from_str("backup delete: ").concat(self.0.as_str())
    }
}

/// What the caller is to do next.
#[derive(Debug)]
pub enum Action {
    /// Tell the user that this backup would be deleted, and delete nothing.
    Report(Removal),
    /// Delete this backup.
    Delete(Removal),
    /// Nothing is left to do.
    Finish,
    /// Give up: the last deletion failed with this error.
    Abort(BackupDeleteError),
}

/// An action as the contracts see it.
pub enum ActionView {
    Report(Seq<char>),
    Delete(Seq<char>),
    Finish,
    Abort(Seq<char>),
}

impl View for Action {
    type V = ActionView;

    open spec fn view(&self) -> ActionView {
        match self {
            Action::Report(removal) => ActionView::Report(removal@),
            Action::Delete(removal) => ActionView::Delete(removal@),
            Action::Finish => ActionView::Finish,
            Action::Abort(error) => ActionView::Abort(error@),
        }
    }
}

/// The state of a run as the contracts see it: the removals that it was
/// started with, how many of them were handed out, and whether it only
/// reports.
pub struct DispatchView {
    pub dry_run: bool,
    pub removals: Seq<Seq<char>>,
    pub issued: nat,
}

impl DispatchView {
    /// The state after the caller has told how the last action ended, and
    /// the action that it is told to take.
    ///
    /// After a failure the run is over: the error is handed back, and
    /// nothing is left to hand out. Otherwise the next removal is handed
    /// out, to be reported in a dry run and to be deleted in any other, and
    /// when none is left the run is finished.
    pub open spec fn step(self, last: Result<(), Seq<char>>) -> (DispatchView, ActionView) {
        match last {
            Err(error) => (
                DispatchView { issued: self.removals.len(), ..self },
                ActionView::Abort(error),
            ),
            Ok(_) => if self.issued < self.removals.len() {
                (
                    DispatchView { issued: self.issued + 1, ..self },
                    if self.dry_run {
                        ActionView::Report(self.removals[self.issued as int])
                    } else {
                        ActionView::Delete(self.removals[self.issued as int])
                    },
                )
            } else {
                (self, ActionView::Finish)
            },
        }
    }

    /// The actions that the caller is told to take, one for each of the
    /// results that it reports in turn.
    pub open spec fn actions(self, results: Seq<Result<(), Seq<char>>>) -> Seq<ActionView>
        decreases results.len(),
    {
        if results.len() == 0 {
            Seq::empty()
        } else {
            let (next, action) = self.step(results.first());
            seq![action] + next.actions(results.drop_first())
        }
    }
}

/// Whether every one of the results is a success.
pub open spec fn all_ok(results: Seq<Result<(), Seq<char>>>) -> bool {
    forall|i: int| 0 <= i < results.len() ==> (#[trigger] results[i]) is Ok
}

/// The caller is told one action for each result.
pub proof fn lemma_one_action_each(state: DispatchView, results: Seq<Result<(), Seq<char>>>)
    ensures
        state.actions(results).len() == results.len(),
    decreases results.len(),
{
    if results.len() > 0 {
        lemma_one_action_each(state.step(results.first()).0, results.drop_first());
    }
}

/// A dry run deletes nothing: whatever results the caller reports, no
/// action that it is told to take is a deletion.
pub proof fn lemma_dry_run_never_deletes(
    state: DispatchView,
    results: Seq<Result<(), Seq<char>>>,
    i: int,
)
    requires
        state.dry_run,
        0 <= i < state.actions(results).len(),
    ensures
        !(state.actions(results)[i] is Delete),
    decreases results.len(),
{
    if i > 0 {
        lemma_dry_run_never_deletes(state.step(results.first()).0, results.drop_first(), i - 1);
    }
}

/// While nothing fails, the removals are handed out in their order, each
/// once: the action at `i` is on the removal `i` places after those that
/// were handed out before, a report in a dry run and a deletion in any
/// other; when they are used up, the action is to finish.
pub proof fn lemma_removals_in_order(
    state: DispatchView,
    results: Seq<Result<(), Seq<char>>>,
    i: int,
)
    requires
        all_ok(results),
        0 <= i < results.len(),
        state.issued <= state.removals.len(),
    ensures
        state.actions(results).len() == results.len(),
        state.actions(results)[i] == if state.issued + i < state.removals.len() {
            if state.dry_run {
                ActionView::Report(state.removals[state.issued + i])
            } else {
                ActionView::Delete(state.removals[state.issued + i])
            }
        } else {
            ActionView::Finish
        },
    decreases results.len(),
{
    lemma_one_action_each(state, results);
    if i > 0 {
        let rest = results.drop_first();
        assert(all_ok(rest)) by {
            assert forall|j: int| 0 <= j < rest.len() implies (#[trigger] rest[j]) is Ok by {
                assert(rest[j] == results[j + 1]);
            }
        }
        lemma_removals_in_order(state.step(results.first()).0, rest, i - 1);
    }
}

/// A failure ends the run: the error is handed back at once, and whatever
/// the caller reports after it, no removal is handed out any more.
pub proof fn lemma_failure_ends_run(
    state: DispatchView,
    results: Seq<Result<(), Seq<char>>>,
    i: int,
)
    requires
        results.len() > 0,
        results.first() is Err,
        0 < i < results.len(),
    ensures
        state.actions(results).len() == results.len(),
        state.actions(results)[0] == ActionView::Abort(results.first()->Err_0),
        !(state.actions(results)[i] is Delete),
        !(state.actions(results)[i] is Report),
{
    lemma_one_action_each(state, results);
    let stopped = state.step(results.first()).0;
    lemma_stopped_stays(stopped, results.drop_first(), i - 1);
}

/// Once every removal is handed out, none is handed out again.
proof fn lemma_stopped_stays(state: DispatchView, results: Seq<Result<(), Seq<char>>>, i: int)
    requires
        state.issued >= state.removals.len(),
        0 <= i < results.len(),
    ensures
        state.actions(results).len() == results.len(),
        !(state.actions(results)[i] is Delete),
        !(state.actions(results)[i] is Report),
    decreases results.len(),
{
    lemma_one_action_each(state, results);
    if i > 0 {
        lemma_stopped_stays(state.step(results.first()).0, results.drop_first(), i - 1);
    }
}

/// The removals of a run on their way to the caller.
#[derive(Debug)]
pub struct Dispatch {
    dry_run: bool,
    removals: Vec<Removal>,
    issued: usize,
}

impl View for Dispatch {
    type V = DispatchView;

    closed spec fn view(&self) -> DispatchView {
        DispatchView {
            dry_run: self.dry_run,
            removals: self.removals.deep_view(),
            issued: self.issued as nat,
        }
    }
}

impl Dispatch {
    #[verifier::type_invariant]
    spec fn well_formed(self) -> bool {
        self.issued <= self.removals@.len()
    }

    /// Starts a run on `removals`. In a dry run they will be reported, in
    /// any other they will be deleted.
    pub fn new(removals: Vec<Removal>, dry_run: bool) -> (dispatch: Dispatch)
        ensures
            dispatch@ == (DispatchView { dry_run, removals: removals.deep_view(), issued: 0 }),
    {
        Dispatch { dry_run, removals, issued: 0 }
    }

    /// Takes the result of the last action and returns the next one. The
    /// first call, and the call after a report, pass `Ok`.
    pub fn step(&mut self, last: Result<(), BackupDeleteError>) -> (action: Action)
        ensures
            (final(self)@, action@) == old(self)@.step(
                match last {
                    Ok(_) => Ok(()),
                    Err(error) => Err(error@),
                },
            ),
            old(self)@.dry_run ==> !(action is Delete),
    {
        proof {
            use_type_invariant(&*self);
        }
        match last {
            Err(error) => {
                self.issued = self.removals.len();
                Action::Abort(error)
            },
            Ok(_) => {
                if self.issued < self.removals.len() {
                    let removal = Removal(self.removals[self.issued].0.clone());
                    self.issued += 1;
                    if self.dry_run {
                        Action::Report(removal)
                    } else {
                        Action::Delete(removal)
                    }
                } else {
                    Action::Finish
                }
            },
        }
    }
}

} // verus!
