//! Pending-resource counters for one suspense boundary.
//!
//! A boundary counts the asynchronous resources still loading under it.
//! Registrations and resolutions do not touch the counters at once: each
//! pushes a deferred effect that the driving loop applies between two
//! synchronous units of work, so resources created and satisfied within one
//! tick never show a transient pending state to an observer.

use vstd::prelude::*;

verus! {

/// One deferred counter mutation: a resource began loading under the
/// boundary, or one resolved.
#[derive(Copy, Clone, Debug, PartialEq, Eq, Structural)]
pub enum SuspenseEffect {
    /// A resource is now pending; `serializable` says whether its value can
    /// be transmitted to the client.
    Increment { serializable: bool },
    /// A resource has resolved.
    Decrement { serializable: bool },
}

/// The counter state of a boundary, as the contracts speak of it.
pub struct CountState {
    /// Resources currently pending.
    pub pending: nat,
    /// The subset of `pending` whose values can be sent to the client.
    pub pending_serializable: nat,
    /// True until at least one serializable resource registers.
    pub has_local_only: bool,
}

/// One more, held at the machine limit rather than wrapping: the counter
/// never exceeds what the machine can represent.
pub open spec fn sat_inc(n: nat) -> nat {
    if n < usize::MAX as nat {
        n + 1
    } else {
        n
    }
}

/// One less, floored at zero: a resolution racing ahead of its registration
/// never drives a counter negative.
pub open spec fn dec_floor(n: nat) -> nat {
    if n > 0 {
        (n - 1) as nat
    } else {
        0
    }
}

/// The counter state after one deferred effect is applied.
pub open spec fn apply_effect(s: CountState, e: SuspenseEffect) -> CountState {
    match e {
        SuspenseEffect::Increment { serializable } => CountState {
            pending: sat_inc(s.pending),
            pending_serializable: if serializable {
                sat_inc(s.pending_serializable)
            } else {
                s.pending_serializable
            },
            has_local_only: if serializable {
                false
            } else {
                s.has_local_only
            },
        },
        SuspenseEffect::Decrement { serializable } => CountState {
            pending: dec_floor(s.pending),
            pending_serializable: if serializable {
                dec_floor(s.pending_serializable)
            } else {
                s.pending_serializable
            },
            has_local_only: s.has_local_only,
        },
    }
}

/// The counter state after a queue of deferred effects is applied in order.
pub open spec fn apply_effects(s: CountState, es: Seq<SuspenseEffect>) -> CountState
    decreases es.len(),
{
    if es.len() == 0 {
        s
    } else {
        apply_effect(apply_effects(s, es.drop_last()), es.last())
    }
}

/// Tracks the resources that are read under one suspense boundary.
pub struct SuspenseContext {
    pending: usize,
    pending_serializable: usize,
    has_local_only: bool,
    should_block: bool,
    deferred: Vec<SuspenseEffect>,
    disposed: bool,
}

impl SuspenseContext {
    /// The applied counter state (deferred effects not yet included).
    pub closed spec fn counts(self) -> CountState {
        CountState {
            pending: self.pending as nat,
            pending_serializable: self.pending_serializable as nat,
            has_local_only: self.has_local_only,
        }
    }

    /// The queue of effects waiting for the next flush.
    pub closed spec fn spec_deferred(self) -> Seq<SuspenseEffect> {
        self.deferred@
    }

    /// Whether any blocking resource has registered under this boundary.
    pub closed spec fn spec_should_block(self) -> bool {
        self.should_block
    }

    /// Whether the boundary has been torn down.
    pub closed spec fn spec_disposed(self) -> bool {
        self.disposed
    }

    /// Creates an empty suspense context.
    pub fn new() -> (r: Self)
        ensures
            r.counts() == (CountState { pending: 0, pending_serializable: 0, has_local_only: true }),
            r.spec_deferred() == Seq::<SuspenseEffect>::empty(),
            !r.spec_should_block(),
            !r.spec_disposed(),
    {
        SuspenseContext {
            pending: 0,
            pending_serializable: 0,
            has_local_only: true,
            should_block: false,
            deferred: Vec::new(),
            disposed: false,
        }
    }

    /// Notifies the suspense context that a new resource is now pending.
    /// The counters move only when the deferred queue is next flushed.
    pub fn increment(&mut self, serializable: bool)
        ensures
            final(self).spec_deferred() == old(self).spec_deferred().push(
                SuspenseEffect::Increment { serializable },
            ),
            final(self).counts() == old(self).counts(),
            final(self).spec_should_block() == old(self).spec_should_block(),
            final(self).spec_disposed() == old(self).spec_disposed(),
    {
        self.deferred.push(SuspenseEffect::Increment { serializable });
    }

    /// Notifies the suspense context that a resource has resolved. Deferred
    /// the same way as `increment`.
    pub fn decrement(&mut self, serializable: bool)
        ensures
            final(self).spec_deferred() == old(self).spec_deferred().push(
                SuspenseEffect::Decrement { serializable },
            ),
            final(self).counts() == old(self).counts(),
            final(self).spec_should_block() == old(self).spec_should_block(),
            final(self).spec_disposed() == old(self).spec_disposed(),
    {
        self.deferred.push(SuspenseEffect::Decrement { serializable });
    }

    /// Applies every queued effect in order. The driving loop calls this
    /// once the current synchronous unit of work has fully unwound. On a
    /// torn-down boundary the queued callbacks are disabled: they are
    /// dropped without effect.
    pub fn flush_deferred(&mut self)
        ensures
            final(self).spec_deferred() == Seq::<SuspenseEffect>::empty(),
            final(self).spec_should_block() == old(self).spec_should_block(),
            final(self).spec_disposed() == old(self).spec_disposed(),
            !old(self).spec_disposed() ==> final(self).counts() == apply_effects(
                old(self).counts(),
                old(self).spec_deferred(),
            ),
            old(self).spec_disposed() ==> final(self).counts() == old(self).counts(),
    {
        if self.disposed {
            self.deferred.clear();
            return ;
        }
        let ghost s0 = self.counts();
        let ghost es = self.deferred@;
        let n = self.deferred.len();
        let mut i: usize = 0;
        while i < n
            invariant
                i <= n,
                n == self.deferred.len(),
                self.deferred@ == es,
                !self.disposed,
                self.counts() == apply_effects(s0, es.take(i as int)),
                self.should_block == old(self).spec_should_block(),
            decreases n - i,
        {
            let e = self.deferred[i];
            match e {
                SuspenseEffect::Increment { serializable } => {
                    if self.pending < usize::MAX {
                        self.pending = self.pending + 1;
                    }
                    if serializable {
                        if self.pending_serializable < usize::MAX {
                            self.pending_serializable = self.pending_serializable + 1;
                        }
                        self.has_local_only = false;
                    }
                },
                SuspenseEffect::Decrement { serializable } => {
                    if self.pending > 0 {
                        self.pending = self.pending - 1;
                    }
                    if serializable {
                        if self.pending_serializable > 0 {
                            self.pending_serializable = self.pending_serializable - 1;
                        }
                    }
                },
            }
            proof {
                assert(es.take(i + 1).drop_last() =~= es.take(i as int));
                assert(es.take(i + 1).last() == es[i as int]);
                assert(self.counts() == apply_effect(apply_effects(s0, es.take(i as int)), es[i as int]));
            }
            i = i + 1;
        }
        proof {
            assert(es.take(n as int) =~= es);
        }
        self.deferred.clear();
    }

    /// Tests whether all of the pending resources have resolved. A torn-down
    /// boundary reports not ready rather than erroring.
    pub fn ready(&self) -> (r: bool)
        ensures
            r == (!self.spec_disposed() && self.counts().pending == 0),
    {
        !self.disposed && self.pending == 0
    }

    /// The number of resources that are currently pending.
    pub fn pending_resources(&self) -> (r: usize)
        ensures
            r as nat == self.counts().pending,
    {
        self.pending
    }

    /// The number of pending resources whose values can be sent to the
    /// client.
    pub fn pending_serializable_resources(&self) -> (r: usize)
        ensures
            r as nat == self.counts().pending_serializable,
    {
        self.pending_serializable
    }

    /// Whether the suspense contains local resources at this moment, and
    /// therefore can't be serialized.
    pub fn has_local_only(&self) -> (r: bool)
        ensures
            r == self.counts().has_local_only,
    {
        self.has_local_only
    }

    /// Whether any blocking resources are read under this suspense context,
    /// meaning the HTML stream should not begin until it has resolved.
    pub fn should_block(&self) -> (r: bool)
        ensures
            r == self.spec_should_block(),
    {
        self.should_block
    }

    /// Records that a blocking resource registered under this boundary; the
    /// flag is sticky for the boundary's whole lifetime.
    pub fn set_should_block(&mut self)
        ensures
            final(self).spec_should_block(),
            final(self).counts() == old(self).counts(),
            final(self).spec_deferred() == old(self).spec_deferred(),
            final(self).spec_disposed() == old(self).spec_disposed(),
    {
        self.should_block = true;
    }

    /// Tears the boundary down: later queries report not ready, and queued
    /// or future deferred callbacks are disabled.
    pub fn dispose(&mut self)
        ensures
            final(self).spec_disposed(),
            final(self).spec_deferred() == Seq::<SuspenseEffect>::empty(),
            final(self).counts() == old(self).counts(),
            final(self).spec_should_block() == old(self).spec_should_block(),
    {
        self.disposed = true;
        self.deferred.clear();
    }
}

/// Suspense counter invariant: under every sequence of deferred effects, in
/// any order and with more resolutions than registrations allowed, both
/// counters stay non-negative and within the machine's range, and the
/// readiness condition holds exactly when nothing is pending.
pub proof fn lemma_counter_invariant(s: CountState, es: Seq<SuspenseEffect>)
    requires
        s.pending <= usize::MAX as nat,
        s.pending_serializable <= usize::MAX as nat,
    ensures
        apply_effects(s, es).pending >= 0,
        apply_effects(s, es).pending_serializable >= 0,
        apply_effects(s, es).pending <= usize::MAX as nat,
        apply_effects(s, es).pending_serializable <= usize::MAX as nat,
    decreases es.len(),
{
    if es.len() > 0 {
        lemma_counter_invariant(s, es.drop_last());
    }
}

} // verus!
