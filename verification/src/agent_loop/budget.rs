//! How much of a model's context window a request may fill.

use vstd::prelude::*;

use super::counter::capped;

verus! {

pub const DEFAULT_OUTPUT_RESERVE: usize = 4096;

pub const CONTEXT_SAFETY_MARGIN: usize = 1024;

/// What is kept free for the answer of a model with long answers.
pub const LONG_OUTPUT_RESERVE: usize = 32768;

/// What is kept free for the answer of a model that limits its completion.
pub const COMPLETION_OUTPUT_RESERVE: usize = 8192;

/// The product, or the largest number where it does not fit.
pub fn saturating_product(a: usize, b: usize) -> (r: usize)
    ensures
        r == capped((a * b) as nat),
{
    proof {
        assert(a * b >= 0) by (nonlinear_arith)
            requires
                a >= 0,
                b >= 0,
        ;
    }
    match a.checked_mul(b) {
        Some(r) => r,
        None => usize::MAX,
    }
}

/// The window of a model, and what has to stay free in it.
#[derive(Debug, Clone, Copy, PartialEq, Eq)]
pub struct ContextBudget {
    pub window: usize,
    pub output_reserve: usize,
    pub safety_margin: usize,
}

impl ContextBudget {
    /// The budget of a model with the context window `window`.
    pub fn for_model(window: usize, long_output: bool, limits_completion: bool) -> (r: Self)
        ensures
            r.window == window,
            r.output_reserve == if long_output {
                LONG_OUTPUT_RESERVE
            } else if limits_completion {
                COMPLETION_OUTPUT_RESERVE
            } else {
                DEFAULT_OUTPUT_RESERVE
            },
            r.safety_margin == CONTEXT_SAFETY_MARGIN,
    {
        let output_reserve: usize = if long_output {
            LONG_OUTPUT_RESERVE
        } else if limits_completion {
            COMPLETION_OUTPUT_RESERVE
        } else {
            DEFAULT_OUTPUT_RESERVE
        };
        ContextBudget { window, output_reserve, safety_margin: CONTEXT_SAFETY_MARGIN }
    }

    /// What the input may cost.
    pub open spec fn input(self) -> nat {
        if self.window >= self.output_reserve + self.safety_margin {
            (self.window - self.output_reserve - self.safety_margin) as nat
        } else {
            0
        }
    }

    /// What the input may cost before it is time to shorten it.
    pub open spec fn pressure(self) -> nat {
        capped(self.input() * 80) / 100
    }

    /// What the part of the history may cost that is kept as it is.
    pub open spec fn tail(self) -> nat {
        capped(self.input() * 16) / 100
    }

    pub fn input_limit(self) -> (r: usize)
        ensures
            r == self.input(),
    {
        self.window.saturating_sub(self.output_reserve).saturating_sub(self.safety_margin)
    }

    pub fn pressure_limit(self) -> (r: usize)
        ensures
            r == self.pressure(),
    {
        saturating_product(self.input_limit(), 80) / 100
    }

    pub fn tail_limit(self) -> (r: usize)
        ensures
            r == self.tail(),
    {
        saturating_product(self.input_limit(), 16) / 100
    }
}

/// The part of the history that is kept costs no more than what sets off the shortening, and
/// that no more than the input may cost.
pub proof fn law_limits_are_ordered(budget: ContextBudget)
    ensures
        budget.tail() <= budget.pressure() <= budget.input(),
{
}

} // verus!
