//! Control of the main loop of the pixelation (Algorithm 1 of the paper):
//! refine superpixels and palette, and whenever the palette has converged
//! either stop at the final temperature or cool down and expand the palette.
//! The loop runs at most a given number of iterations.

use vstd::prelude::*;

verus! {

/// What follows a refinement of the palette.
#[derive(Clone, Copy, Debug, PartialEq, Eq, Structural)]
pub enum Step {
    /// The palette has not converged yet: keep refining.
    Continue,
    /// The palette converged above the final temperature: lower the
    /// temperature and expand the palette.
    Expand,
    /// The palette converged at the final temperature: the run is done.
    Converged,
}

/// Iteration count and outcome of an annealing run.
pub struct Schedule {
    iterations: usize,
    max_iter: usize,
    converged: bool,
}

impl Schedule {
    #[verifier::type_invariant]
    spec fn within_budget(self) -> bool {
        self.iterations <= self.max_iter
    }

    /// Iterations started so far.
    pub closed spec fn spec_iterations(self) -> nat {
        self.iterations as nat
    }

    /// Largest number of iterations.
    pub closed spec fn spec_max_iter(self) -> nat {
        self.max_iter as nat
    }

    /// Whether the run reached convergence at the final temperature.
    pub closed spec fn spec_converged(self) -> bool {
        self.converged
    }

    /// A run of at most `max_iter` iterations, none started yet.
    pub fn new(max_iter: usize) -> (s: Schedule)
        ensures
            s.spec_iterations() == 0,
            s.spec_max_iter() == max_iter,
            !s.spec_converged(),
    {
        Schedule { iterations: 0, max_iter, converged: false }
    }

    /// Start the next iteration if the budget allows; `false` ends the run.
    pub fn start_iteration(&mut self) -> (go: bool)
        ensures
            go == (old(self).spec_iterations() < old(self).spec_max_iter()),
            final(self).spec_iterations() == old(self).spec_iterations() + (if go { 1int } else { 0int }),
            final(self).spec_iterations() <= final(self).spec_max_iter(),
            final(self).spec_max_iter() == old(self).spec_max_iter(),
            final(self).spec_converged() == old(self).spec_converged(),
    {
        proof {
            use_type_invariant(&*self);
        }
        if self.iterations < self.max_iter {
            self.iterations = self.iterations + 1;
            true
        } else {
            false
        }
    }

    /// Decide what follows a palette refinement, from whether the palette
    /// moved less than its convergence threshold and whether the
    /// temperature has reached its final value.
    pub fn after_refine(&mut self, palette_converged: bool, at_final_temperature: bool) -> (step: Step)
        ensures
            step == (if !palette_converged {
                Step::Continue
            } else if at_final_temperature {
                Step::Converged
            } else {
                Step::Expand
            }),
            final(self).spec_converged() == (old(self).spec_converged() || step == Step::Converged),
            final(self).spec_iterations() == old(self).spec_iterations(),
            final(self).spec_max_iter() == old(self).spec_max_iter(),
    {
        proof {
            use_type_invariant(&*self);
        }
        if palette_converged {
            if at_final_temperature {
                self.converged = true;
                Step::Converged
            } else {
                Step::Expand
            }
        } else {
            Step::Continue
        }
    }

    /// Iterations started so far.
    pub fn iterations(&self) -> (n: usize)
        ensures
            n == self.spec_iterations(),
            n <= self.spec_max_iter(),
    {
        proof {
            use_type_invariant(self);
        }
        self.iterations
    }

    /// Whether the run reached convergence at the final temperature.
    pub fn converged(&self) -> (c: bool)
        ensures
            c == self.spec_converged(),
    {
        self.converged
    }
}

} // verus!
