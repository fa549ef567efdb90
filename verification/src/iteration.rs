//! Iteration control of the gradient optimizer: iterations are numbered
//! from 1, the run stops after the first iteration whose objective moved by
//! less than the tolerance, and otherwise after `max_iter` iterations. The
//! objective and its gradient are computed by the caller between the calls.

use vstd::prelude::*;

verus! {

/// How an optimizer run ended.
#[derive(Clone, Copy, Debug, PartialEq, Eq, Structural)]
pub enum RunOutcome {
    /// An iteration moved the objective by less than the tolerance.
    Converged,
    /// All `max_iter` iterations ran without converging.
    IterMax,
}

/// The state of an optimizer run: its iteration limit, the number of
/// iterations begun, and whether an iteration has converged.
pub struct IterationControl {
    max_iter: usize,
    iter: usize,
    converged: bool,
}

impl IterationControl {
    /// No more iterations than the limit have begun, and only a begun
    /// iteration can have converged.
    #[verifier::type_invariant]
    spec fn inv(self) -> bool {
        &&& self.iter <= self.max_iter
        &&& self.converged ==> self.iter >= 1
    }

    /// The iteration limit.
    pub closed spec fn limit(&self) -> nat {
        self.max_iter as nat
    }

    /// The number of iterations begun so far.
    pub closed spec fn begun(&self) -> nat {
        self.iter as nat
    }

    /// Whether an iteration has converged.
    pub closed spec fn has_converged(&self) -> bool {
        self.converged
    }

    /// The run is over: it converged, or the limit is reached.
    pub open spec fn finished(&self) -> bool {
        self.has_converged() || self.begun() >= self.limit()
    }

    /// A run is over exactly when an iteration has converged or the limit
    /// of iterations has been begun; until then another iteration is due.
    pub proof fn law_run_ends_only_on_convergence_or_limit(run: IterationControl)
        ensures
            run.finished() <==> (run.has_converged() || run.begun() >= run.limit()),
            !run.has_converged() && run.begun() < run.limit() ==> !run.finished(),
    {
    }

    /// A run of at most `max_iter` iterations, none begun.
    pub fn new(max_iter: usize) -> (run: Self)
        ensures
            run.limit() == max_iter,
            run.begun() == 0,
            !run.has_converged(),
    {
        IterationControl { max_iter, iter: 0, converged: false }
    }

    /// Begins the next iteration and returns its number (from 1), or
    /// returns `None` when the run is over. No more than the limit of
    /// iterations are ever begun.
    pub fn next_iteration(&mut self) -> (number: Option<usize>)
        ensures
            final(self).begun() <= final(self).limit(),
            final(self).limit() == old(self).limit(),
            final(self).has_converged() == old(self).has_converged(),
            old(self).finished() ==> number is None && final(self).begun() == old(self).begun(),
            !old(self).finished() ==> number == Some((old(self).begun() + 1) as usize)
                && final(self).begun() == old(self).begun() + 1,
            !old(self).has_converged() && old(self).begun() < old(self).limit() ==> number == Some(
                (old(self).begun() + 1) as usize,
            ),
            old(self).has_converged() || old(self).begun() >= old(self).limit() ==> number is None,
    {
        proof {
            use_type_invariant(&*self);
        }
        if self.converged || self.iter >= self.max_iter {
            None
        } else {
            self.iter = self.iter + 1;
            Some(self.iter)
        }
    }

    /// Records whether the current iteration moved the objective by less
    /// than the tolerance.
    pub fn record(&mut self, within_tolerance: bool)
        requires
            old(self).begun() >= 1,
        ensures
            final(self).begun() <= final(self).limit(),
            final(self).limit() == old(self).limit(),
            final(self).begun() == old(self).begun(),
            final(self).has_converged() == (old(self).has_converged() || within_tolerance),
    {
        proof {
            use_type_invariant(&*self);
        }
        self.converged = self.converged || within_tolerance;
    }

    /// The number of iterations begun so far.
    pub fn iterations(&self) -> (count: usize)
        ensures
            count == self.begun(),
            count <= self.limit(),
    {
        proof {
            use_type_invariant(self);
        }
        self.iter
    }

    /// How the run ended: converged if an iteration converged.
    pub fn outcome(&self) -> (outcome: RunOutcome)
        ensures
            outcome == (if self.has_converged() {
                RunOutcome::Converged
            } else {
                RunOutcome::IterMax
            }),
    {
        if self.converged {
            RunOutcome::Converged
        } else {
            RunOutcome::IterMax
        }
    }
}

} // verus!
