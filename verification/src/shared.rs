//! A renderer behind a lock: the form in which listeners, which may fire at any
//! time, hold the state of the application.

use crate::component::Component;
use crate::error::Error;
use crate::path::{locator, Path};
use crate::reconcile::Patch;
use crate::render::{dispatched, outcome_is, rendered, Phase, Renderer, RendererModel};
use crate::virtual_dom::share;
use core::ops::DerefMut;
use std::sync::Arc;
use vstd::prelude::*;
use vstd::string::StringExecFns;

verus! {

/// `spin::mutex::Mutex`, a lock that gives one holder at a time access to a
/// value. Nothing is stated of the value inside.
#[verifier::external_type_specification]
#[verifier::external_body]
#[verifier::reject_recursive_types(T)]
#[verifier::reject_recursive_types(R)]
pub struct ExMutex<T: ?Sized, R>(spin::mutex::Mutex<T, R>);

/// `spin::relax::Spin`, the way in which a `spin::mutex::Mutex` waits.
#[verifier::external_type_specification]
#[verifier::external_body]
pub struct ExSpin(spin::relax::Spin);

/// `spin::mutex::MutexGuard`, which holds a lock until it is dropped.
#[verifier::external_type_specification]
#[verifier::external_body]
#[verifier::reject_recursive_types(T)]
pub struct ExMutexGuard<'a, T: 'a + ?Sized>(spin::mutex::MutexGuard<'a, T>);

/// `spin::mutex::Mutex::new`: a lock around `value`. The contract claims
/// nothing.
#[verifier::external_body]
fn lock_around<T>(value: T) -> (lock: spin::mutex::Mutex<T, spin::relax::Spin>) {
    spin::mutex::Mutex::new(value)
}

/// `spin::mutex::Mutex::try_lock`: the guard where the lock was free, nothing
/// where it was held. The contract claims nothing: which of the two comes back
/// depends on the other holders.
#[verifier::external_body]
fn try_lock<'a, T>(lock: &'a spin::mutex::Mutex<T, spin::relax::Spin>) -> (guard: Option<
    spin::mutex::MutexGuard<'a, T>,
>) {
    lock.try_lock()
}

/// `DerefMut::deref_mut` of `spin::mutex::MutexGuard`: the value that the lock
/// guards. The contract claims nothing: the value is what the last holder
/// left.
#[verifier::external_body]
fn guarded<'a, 'b, T>(guard: &'b mut spin::mutex::MutexGuard<'a, T>) -> (value: &'b mut T) {
    guard.deref_mut()
}

/// A renderer that is shared: every clone leads to the same renderer, and a
/// lock lets one of them at a time work on it. No call waits for the lock: one
/// that finds it held fails with [`Error::LockFailed`].
#[verifier::reject_recursive_types(C)]
pub struct SharedRenderer<C: Component> {
    renderer: Arc<spin::mutex::Mutex<Renderer<C>, spin::relax::Spin>>,
    root: String,
}

impl<C: Component> SharedRenderer<C> {
    /// The locator of the root element.
    pub closed spec fn root(&self) -> Seq<char> {
        self.root@
    }

    /// Shares `renderer`.
    pub fn new(renderer: Renderer<C>) -> (shared: SharedRenderer<C>)
        ensures
            shared.root() == renderer@.root,
    {
        let root = renderer.locator(&Path::new());
        assert(root@ =~= renderer@.root);
        SharedRenderer { renderer: Arc::new(lock_around(renderer)), root }
    }

    /// The locator expression that finds, in the document, the element at
    /// `path` of the virtual DOM.
    pub fn locator(&self, path: &Path) -> (expression: String)
        ensures
            expression@ == self.root() + locator(path@),
    {
        let mut expression = self.root.clone();
        let below = path.render();
        expression.append(below.as_str());
        expression
    }

    /// Makes a render pass on the renderer as it is found: see [`rendered`].
    /// Where the lock is held the pass fails with [`Error::LockFailed`], as it
    /// does where the renderer is not idle.
    pub fn render(&self) -> (outcome: Result<Vec<Patch<C::Message>>, Error>)
        ensures
            exists|found: RendererModel<C, C::Message>| #[trigger]
                outcome_is(outcome, rendered::<C>(found).1),
    {
        match try_lock(&*self.renderer) {
            Some(mut guard) => {
                let renderer = guarded(&mut guard);
                let ghost found = renderer@;
                let outcome = renderer.render();
                assert(outcome_is(outcome, rendered::<C>(found).1));
                outcome
            },
            None => {
                let ghost held = RendererModel::<C, C::Message> {
                    phase: Phase::Rendering,
                    ..arbitrary()
                };
                assert(outcome_is(
                    Err::<Vec<Patch<C::Message>>, Error>(Error::LockFailed),
                    rendered::<C>(held).1,
                ));
                Err(Error::LockFailed)
            },
        }
    }

    /// Delivers `message` to the component at `scope` of the renderer as it is
    /// found, and makes a render pass: see [`dispatched`]. Where the lock is
    /// held the delivery fails with [`Error::LockFailed`], as it does where the
    /// renderer is not idle.
    pub fn dispatch(&self, scope: &Path, message: &C::Message) -> (outcome: Result<
        Vec<Patch<C::Message>>,
        Error,
    >)
        ensures
            exists|found: RendererModel<C, C::Message>| #[trigger]
                outcome_is(outcome, dispatched::<C>(found, scope@, *message).1),
    {
        match try_lock(&*self.renderer) {
            Some(mut guard) => {
                let renderer = guarded(&mut guard);
                let ghost found = renderer@;
                let outcome = renderer.dispatch(scope, message);
                assert(outcome_is(outcome, dispatched::<C>(found, scope@, *message).1));
                outcome
            },
            None => {
                let ghost held = RendererModel::<C, C::Message> {
                    phase: Phase::Rendering,
                    ..arbitrary()
                };
                assert(outcome_is(
                    Err::<Vec<Patch<C::Message>>, Error>(Error::LockFailed),
                    dispatched::<C>(held, scope@, *message).1,
                ));
                Err(Error::LockFailed)
            },
        }
    }

    /// Ends the open render pass of the renderer as it is found, of whose
    /// patches `applied` were written: see [`committed`]. The result tells
    /// whether the pass was kept; where the lock is held it fails with
    /// [`Error::LockFailed`].
    pub fn commit(&self, applied: usize) -> (outcome: Result<bool, Error>)
        ensures
            outcome matches Err(error) ==> error == Error::LockFailed,
    {
        match try_lock(&*self.renderer) {
            Some(mut guard) => Ok(guarded(&mut guard).commit(applied)),
            None => Err(Error::LockFailed),
        }
    }
}

impl<C: Component> Clone for SharedRenderer<C> {
    fn clone(&self) -> (shared: SharedRenderer<C>)
        ensures
            shared.root() == self.root(),
    {
        SharedRenderer { renderer: share(&self.renderer), root: self.root.clone() }
    }
}

} // verus!
