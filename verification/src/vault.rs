//! Changes to the credential store that belong to a change of the saved data.
//! Both are made by the caller, one after the other; this module says which
//! comes next, and what is taken back after a failure.

#![verifier::loop_isolation(false)]

use crate::error::{self, AppError, ErrorView};
use crate::models::{Duplicate, duplicate_list};
use vstd::prelude::*;

verus! {

/// A change to the credential store.
#[derive(Debug)]
pub enum VaultChange {
    Store { reference: String, secret: String },
    Delete { reference: String },
}

/// What a [`VaultChange`] says.
#[verifier::ext_equal]
pub enum VaultChangeView {
    Store { reference: Seq<char>, secret: Seq<char> },
    Delete { reference: Seq<char> },
}

impl View for VaultChange {
    type V = VaultChangeView;

    open spec fn view(&self) -> VaultChangeView {
        match self {
            VaultChange::Store { reference, secret } => VaultChangeView::Store {
                reference: reference@,
                secret: secret@,
            },
            VaultChange::Delete { reference } => VaultChangeView::Delete { reference: reference@ },
        }
    }
}

impl DeepView for VaultChange {
    type V = VaultChangeView;

    open spec fn deep_view(&self) -> VaultChangeView {
        self@
    }
}

impl Duplicate for VaultChange {
    fn duplicate(&self) -> (r: Self) {
        match self {
            VaultChange::Store { reference, secret } => VaultChange::Store {
                reference: reference.clone(),
                secret: secret.clone(),
            },
            VaultChange::Delete { reference } => VaultChange::Delete {
                reference: reference.clone(),
            },
        }
    }
}

/// A change, and what is done where it fails.
#[derive(Debug)]
pub struct VaultStep {
    pub change: VaultChange,
    pub undo: Vec<VaultChange>,
}

/// What a [`VaultStep`] says.
#[verifier::ext_equal]
pub struct VaultStepView {
    pub change: VaultChangeView,
    pub undo: Seq<VaultChangeView>,
}

impl View for VaultStep {
    type V = VaultStepView;

    open spec fn view(&self) -> VaultStepView {
        VaultStepView { change: self.change@, undo: self.undo.deep_view() }
    }
}

impl DeepView for VaultStep {
    type V = VaultStepView;

    open spec fn deep_view(&self) -> VaultStepView {
        self@
    }
}

/// How a plan ends: the saved data are written, and where that fails the store is
/// set back; or the store is set back and the request refused.
#[derive(Debug)]
pub enum VaultEnding {
    Write { undo: Vec<VaultChange> },
    Refuse { undo: Vec<VaultChange>, error: AppError },
}

/// What a [`VaultEnding`] says.
#[verifier::ext_equal]
pub enum VaultEndingView {
    Write { undo: Seq<VaultChangeView> },
    Refuse { undo: Seq<VaultChangeView>, error: ErrorView },
}

impl View for VaultEnding {
    type V = VaultEndingView;

    open spec fn view(&self) -> VaultEndingView {
        match self {
            VaultEnding::Write { undo } => VaultEndingView::Write { undo: undo.deep_view() },
            VaultEnding::Refuse { undo, error } => VaultEndingView::Refuse {
                undo: undo.deep_view(),
                error: error@,
            },
        }
    }
}

/// The steps of a plan in their order, and its ending.
#[verifier::ext_equal]
pub struct VaultPlanView {
    pub steps: Seq<VaultStepView>,
    pub ending: VaultEndingView,
}

/// How far a plan has come.
#[verifier::ext_equal]
pub enum VaultStateView {
    /// The step at this place comes next.
    Doing { at: int },
    /// These changes set the store back; then the plan ends with the error.
    Undoing { left: Seq<VaultChangeView>, error: ErrorView },
    /// The saved data are written next.
    Writing,
    /// The plan has ended, with an error or without.
    Finished { failure: Option<ErrorView> },
}

/// What the caller does next.
#[derive(Debug)]
pub enum VaultAction {
    /// Makes a change and reports whether it succeeded.
    Apply(VaultChange),
    /// Makes a change that sets the store back, whether it succeeds or not.
    Restore(VaultChange),
    /// Writes the saved data and reports whether that succeeded.
    Write,
    /// Nothing more: the plan ended.
    Finish,
}

/// What a [`VaultAction`] says.
#[verifier::ext_equal]
pub enum VaultActionView {
    Apply(VaultChangeView),
    Restore(VaultChangeView),
    Write,
    Finish,
}

impl View for VaultAction {
    type V = VaultActionView;

    open spec fn view(&self) -> VaultActionView {
        match self {
            VaultAction::Apply(change) => VaultActionView::Apply(change@),
            VaultAction::Restore(change) => VaultActionView::Restore(change@),
            VaultAction::Write => VaultActionView::Write,
            VaultAction::Finish => VaultActionView::Finish,
        }
    }
}

/// The state in which the store is set back before the plan ends with an error.
pub open spec fn undoing(left: Seq<VaultChangeView>, error: ErrorView) -> VaultStateView {
    if left.len() == 0 {
        VaultStateView::Finished { failure: Some(error) }
    } else {
        VaultStateView::Undoing { left, error }
    }
}

/// The state in which the step at `at` comes next, or the ending behind the last.
pub open spec fn doing(plan: VaultPlanView, at: int) -> VaultStateView {
    if at < plan.steps.len() {
        VaultStateView::Doing { at }
    } else {
        match plan.ending {
            VaultEndingView::Write { .. } => VaultStateView::Writing,
            VaultEndingView::Refuse { undo, error } => undoing(undo, error),
        }
    }
}

/// What the caller does in a state.
pub open spec fn action_in(plan: VaultPlanView, state: VaultStateView) -> VaultActionView {
    match state {
        VaultStateView::Doing { at } => VaultActionView::Apply(plan.steps[at].change),
        VaultStateView::Undoing { left, .. } => VaultActionView::Restore(left[0]),
        VaultStateView::Writing => VaultActionView::Write,
        VaultStateView::Finished { .. } => VaultActionView::Finish,
    }
}

/// The state after the caller did what the state asks for; `failure` is the error
/// that came.
pub open spec fn state_after(
    plan: VaultPlanView,
    state: VaultStateView,
    failure: Option<ErrorView>,
) -> VaultStateView {
    match state {
        VaultStateView::Doing { at } => match failure {
            None => doing(plan, at + 1),
            Some(error) => undoing(plan.steps[at].undo, error),
        },
        VaultStateView::Undoing { left, error } => undoing(left.drop_first(), error),
        VaultStateView::Writing => match (failure, plan.ending) {
            (None, _) => VaultStateView::Finished { failure: None },
            (Some(error), VaultEndingView::Write { undo }) => undoing(undo, error),
            (Some(error), _) => undoing(Seq::empty(), error),
        },
        VaultStateView::Finished { .. } => state,
    }
}

/// Whether a state belongs to a plan.
pub open spec fn state_fits(plan: VaultPlanView, state: VaultStateView) -> bool {
    match state {
        VaultStateView::Doing { at } => 0 <= at < plan.steps.len(),
        VaultStateView::Undoing { left, .. } => left.len() > 0,
        VaultStateView::Writing => plan.ending is Write,
        VaultStateView::Finished { .. } => true,
    }
}

/// How far a plan has come.
enum VaultState {
    Doing { at: usize },
    Undoing { left: Vec<VaultChange>, at: usize, error: AppError },
    Writing,
    Finished { failure: Option<AppError> },
}

impl View for VaultState {
    type V = VaultStateView;

    closed spec fn view(&self) -> VaultStateView {
        match self {
            VaultState::Doing { at } => VaultStateView::Doing { at: *at as int },
            VaultState::Undoing { left, at, error } => VaultStateView::Undoing {
                left: left.deep_view().skip(*at as int),
                error: error@,
            },
            VaultState::Writing => VaultStateView::Writing,
            VaultState::Finished { failure } => VaultStateView::Finished {
                failure: failure.deep_view(),
            },
        }
    }
}

/// A plan that is being carried out.
pub struct VaultRun {
    steps: Vec<VaultStep>,
    ending: VaultEnding,
    state: VaultState,
}

impl VaultRun {
    /// The plan.
    pub closed spec fn plan(self) -> VaultPlanView {
        VaultPlanView { steps: self.steps.deep_view(), ending: self.ending@ }
    }

    /// How far it has come.
    pub closed spec fn state(self) -> VaultStateView {
        self.state@
    }

    /// The state belongs to the plan.
    pub closed spec fn wf(self) -> bool {
        match self.state {
            VaultState::Doing { at } => at < self.steps@.len(),
            VaultState::Undoing { left, at, .. } => at < left@.len(),
            VaultState::Writing => self.ending is Write,
            VaultState::Finished { .. } => true,
        }
    }

    /// A run whose state fits.
    pub proof fn lemma_fits(self)
        requires
            self.wf(),
        ensures
            state_fits(self.plan(), self.state()),
    {
    }

    /// Starts a plan.
    pub fn new(steps: Vec<VaultStep>, ending: VaultEnding) -> (r: Self)
        ensures
            r.wf(),
            r.plan() == (VaultPlanView { steps: steps.deep_view(), ending: ending@ }),
            r.state() == doing(r.plan(), 0),
    {
        let mut r = VaultRun { steps, ending, state: VaultState::Writing };
        r.go_to(0);
        r
    }

    /// Moves to the step at `at`, or to the ending.
    fn go_to(&mut self, at: usize)
        requires
            at <= old(self).steps@.len(),
        ensures
            final(self).wf(),
            final(self).plan() == old(self).plan(),
            final(self).state() == doing(old(self).plan(), at as int),
    {
        if at < self.steps.len() {
            self.state = VaultState::Doing { at };
        } else {
            let refusal = match &self.ending {
                VaultEnding::Write { .. } => None,
                VaultEnding::Refuse { undo, error } => Some(
                    (duplicate_list(undo), error.duplicate()),
                ),
            };
            match refusal {
                None => {
                    self.state = VaultState::Writing;
                },
                Some((undo, error)) => {
                    self.undo_then_fail(undo, error);
                },
            }
        }
    }

    /// Sets the store back and ends with an error.
    fn undo_then_fail(&mut self, undo: Vec<VaultChange>, error: AppError)
        ensures
            final(self).wf(),
            final(self).plan() == old(self).plan(),
            final(self).state() == undoing(undo.deep_view(), error@),
    {
        if undo.len() == 0 {
            self.state = VaultState::Finished { failure: Some(error) };
        } else {
            assert(undo.deep_view().skip(0) =~= undo.deep_view());
            self.state = VaultState::Undoing { left: undo, at: 0, error };
        }
    }

    /// What the caller does next.
    pub fn action(&self) -> (r: VaultAction)
        requires
            self.wf(),
        ensures
            r@ == action_in(self.plan(), self.state()),
    {
        match &self.state {
            VaultState::Doing { at } => VaultAction::Apply(self.steps[*at].change.duplicate()),
            VaultState::Undoing { left, at, .. } => VaultAction::Restore(left[*at].duplicate()),
            VaultState::Writing => VaultAction::Write,
            VaultState::Finished { .. } => VaultAction::Finish,
        }
    }

    /// Goes on after the caller did what was asked for.
    pub fn advance(&mut self, outcome: Result<(), AppError>)
        requires
            old(self).wf(),
        ensures
            final(self).wf(),
            final(self).plan() == old(self).plan(),
            final(self).state() == state_after(
                old(self).plan(),
                old(self).state(),
                error::error_of(outcome),
            ),
    {
        let total: usize = self.steps.len();
        let mut state = VaultState::Writing;
        core::mem::swap(&mut state, &mut self.state);
        match state {
            VaultState::Doing { at } => match outcome {
                Ok(()) => {
                    self.go_to(at + 1);
                },
                Err(error) => {
                    let undo = duplicate_list(&self.steps[at].undo);
                    self.undo_then_fail(undo, error);
                },
            },
            VaultState::Undoing { left, at, error } => {
                proof {
                    let view = left.deep_view();
                    assert(view.skip(at as int).drop_first() =~= view.skip(at + 1));
                }
                let count: usize = left.len();
                if at + 1 == count {
                    self.state = VaultState::Finished { failure: Some(error) };
                } else {
                    self.state = VaultState::Undoing { left, at: at + 1, error };
                }
            },
            VaultState::Writing => match outcome {
                Ok(()) => {
                    self.state = VaultState::Finished { failure: None };
                },
                Err(error) => {
                    let undo = match &self.ending {
                        VaultEnding::Write { undo } => duplicate_list(undo),
                        VaultEnding::Refuse { .. } => Vec::new(),
                    };
                    self.undo_then_fail(undo, error);
                },
            },
            VaultState::Finished { failure } => {
                self.state = VaultState::Finished { failure };
            },
        }
    }

    /// The outcome, once the plan has ended.
    pub fn outcome(self) -> (r: Option<Result<(), AppError>>)
        requires
            self.wf(),
        ensures
            match r {
                None => !(self.state() is Finished),
                Some(outcome) => self.state() == (VaultStateView::Finished {
                    failure: error::error_of(outcome),
                }),
            },
    {
        match self.state {
            VaultState::Finished { failure } => match failure {
                None => Some(Ok(())),
                Some(error) => Some(Err(error)),
            },
            _ => None,
        }
    }
}

/// What a credential store holds after a change.
pub open spec fn changed(
    vault: Map<Seq<char>, Seq<char>>,
    change: VaultChangeView,
) -> Map<Seq<char>, Seq<char>> {
    match change {
        VaultChangeView::Store { reference, secret } => vault.insert(reference, secret),
        VaultChangeView::Delete { reference } => vault.remove(reference),
    }
}

/// What a credential store holds after several changes.
pub open spec fn all_changed(
    vault: Map<Seq<char>, Seq<char>>,
    changes: Seq<VaultChangeView>,
) -> Map<Seq<char>, Seq<char>>
    decreases changes.len(),
{
    if changes.len() == 0 {
        vault
    } else {
        all_changed(changed(vault, changes[0]), changes.drop_first())
    }
}

/// The number of the operation that a state asks for: its step, or the write
/// behind the last step.
pub open spec fn operation(plan: VaultPlanView, state: VaultStateView) -> int {
    match state {
        VaultStateView::Doing { at } => at,
        _ => plan.steps.len() as int,
    }
}

/// How many operations a plan still asks for in a state, at most.
pub open spec fn operations_left(plan: VaultPlanView, state: VaultStateView) -> (int, int) {
    match state {
        VaultStateView::Doing { at } => (2, plan.steps.len() - at),
        VaultStateView::Writing => (1, 0),
        VaultStateView::Undoing { left, .. } => (0, left.len() as int + 1),
        VaultStateView::Finished { .. } => (0, 0),
    }
}

/// What the credential store holds in the end, whether the saved data were
/// written, and the error, where the operation with the number `fails` fails
/// with `error` and every other succeeds.
pub open spec fn played(
    plan: VaultPlanView,
    state: VaultStateView,
    vault: Map<Seq<char>, Seq<char>>,
    fails: int,
    error: ErrorView,
) -> (Map<Seq<char>, Seq<char>>, bool, Option<ErrorView>)
    decreases operations_left(plan, state).0, operations_left(plan, state).1,
    when state_fits(plan, state)
{
    match state {
        VaultStateView::Doing { at } => if at == fails {
            played(plan, state_after(plan, state, Some(error)), vault, fails, error)
        } else {
            played(
                plan,
                state_after(plan, state, None),
                changed(vault, plan.steps[at].change),
                fails,
                error,
            )
        },
        VaultStateView::Undoing { left, .. } => played(
            plan,
            state_after(plan, state, None),
            changed(vault, left[0]),
            fails,
            error,
        ),
        VaultStateView::Writing => if fails == plan.steps.len() {
            played(plan, state_after(plan, state, Some(error)), vault, fails, error)
        } else {
            (vault, true, None)
        },
        VaultStateView::Finished { failure } => (vault, false, failure),
    }
}

/// Setting the store back makes all the changes and ends with the error.
pub proof fn lemma_undoing(
    plan: VaultPlanView,
    left: Seq<VaultChangeView>,
    failure: ErrorView,
    vault: Map<Seq<char>, Seq<char>>,
    fails: int,
    error: ErrorView,
)
    ensures
        played(plan, undoing(left, failure), vault, fails, error) == (
            all_changed(vault, left),
            false,
            Some(failure),
        ),
    decreases left.len(),
{
    if left.len() > 0 {
        lemma_undoing(plan, left.drop_first(), failure, changed(vault, left[0]), fails, error);
    }
}

/// The saved data are written if and only if the plan ends without an error.
pub proof fn written_unless_failed(
    plan: VaultPlanView,
    state: VaultStateView,
    vault: Map<Seq<char>, Seq<char>>,
    fails: int,
    error: ErrorView,
)
    requires
        state_fits(plan, state),
        !(state matches VaultStateView::Finished { failure } && failure is None),
    ensures
        played(plan, state, vault, fails, error).1 <==> played(plan, state, vault, fails, error).2
            is None,
    decreases operations_left(plan, state).0, operations_left(plan, state).1,
{
    match state {
        VaultStateView::Doing { at } => {
            if at == fails {
                written_unless_failed(
                    plan,
                    state_after(plan, state, Some(error)),
                    vault,
                    fails,
                    error,
                );
            } else {
                written_unless_failed(
                    plan,
                    state_after(plan, state, None),
                    changed(vault, plan.steps[at].change),
                    fails,
                    error,
                );
            }
        },
        VaultStateView::Undoing { left, .. } => {
            written_unless_failed(
                plan,
                state_after(plan, state, None),
                changed(vault, left[0]),
                fails,
                error,
            );
        },
        VaultStateView::Writing => {
            if fails == plan.steps.len() {
                written_unless_failed(
                    plan,
                    state_after(plan, state, Some(error)),
                    vault,
                    fails,
                    error,
                );
            }
        },
        VaultStateView::Finished { .. } => {},
    }
}

/// What a credential store holds after the changes of several steps.
pub open spec fn steps_made(
    steps: Seq<VaultStepView>,
    vault: Map<Seq<char>, Seq<char>>,
) -> Map<Seq<char>, Seq<char>>
    decreases steps.len(),
{
    if steps.len() == 0 {
        vault
    } else {
        steps_made(steps.drop_first(), changed(vault, steps[0].change))
    }
}

/// A plan whose steps succeed makes them all.
pub proof fn lemma_steps(
    plan: VaultPlanView,
    at: int,
    vault: Map<Seq<char>, Seq<char>>,
    fails: int,
    error: ErrorView,
)
    requires
        0 <= at <= plan.steps.len(),
        fails < at || fails >= plan.steps.len(),
    ensures
        played(plan, doing(plan, at), vault, fails, error) == played(
            plan,
            doing(plan, plan.steps.len() as int),
            steps_made(plan.steps.skip(at), vault),
            fails,
            error,
        ),
    decreases plan.steps.len() - at,
{
    if at < plan.steps.len() {
        assert(plan.steps.skip(at).drop_first() =~= plan.steps.skip(at + 1));
        lemma_steps(plan, at + 1, changed(vault, plan.steps[at].change), fails, error);
    }
}

/// Steps made one list after the other.
pub proof fn lemma_steps_joined(
    a: Seq<VaultStepView>,
    b: Seq<VaultStepView>,
    vault: Map<Seq<char>, Seq<char>>,
)
    ensures
        steps_made(a + b, vault) == steps_made(b, steps_made(a, vault)),
    decreases a.len(),
{
    if a.len() == 0 {
        assert(a + b =~= b);
    } else {
        assert((a + b).drop_first() =~= a.drop_first() + b);
        lemma_steps_joined(a.drop_first(), b, changed(vault, a[0].change));
    }
}

/// What is done next is what the plan says: the change of its step, the change that takes
/// one back, writing the data, or nothing more. A plan begins with its first step and, once
/// all are made, writes or takes back what it must.
pub proof fn plans_are_carried_out(plan: VaultPlanView, at: int, left: Seq<VaultChangeView>, error: ErrorView)
    requires
        0 <= at < plan.steps.len(),
        left.len() > 0,
    ensures
        action_in(plan, VaultStateView::Doing { at }) == VaultActionView::Apply(
            plan.steps[at].change,
        ),
        action_in(plan, VaultStateView::Undoing { left, error }) == VaultActionView::Restore(
            left[0],
        ),
        action_in(plan, VaultStateView::Writing) is Write,
        action_in(plan, VaultStateView::Finished { failure: Some(error) }) is Finish,
        doing(plan, 0) == (VaultStateView::Doing { at: 0 }),
        at + 1 < plan.steps.len() ==> state_after(plan, VaultStateView::Doing { at }, None) == (
        VaultStateView::Doing { at: at + 1 }),
        at + 1 == plan.steps.len() && plan.ending is Write ==> state_after(
            plan,
            VaultStateView::Doing { at },
            None,
        ) is Writing,
        state_after(plan, VaultStateView::Writing, None) == (VaultStateView::Finished {
            failure: None,
        }),
        left.len() == 1 ==> state_after(
            plan,
            VaultStateView::Undoing { left, error },
            None,
        ) == (VaultStateView::Finished { failure: Some(error) }),
{
}

} // verus!
