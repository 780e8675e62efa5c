//! How many tokens a text costs.

use vstd::prelude::*;

use crate::deep::{deep, group_deep};
use crate::json::{Json, JsonModel};

verus! {

broadcast use group_deep;

/// The largest number of tokens that is told apart.
pub open spec fn capped(n: nat) -> nat {
    if n <= usize::MAX {
        n
    } else {
        usize::MAX as nat
    }
}

/// Whether `f` counts what `model` says.
pub open spec fn counts_text<F: Fn(&str) -> usize>(
    f: F,
    model: spec_fn(Seq<char>) -> usize,
) -> bool {
    forall|s: &str, n: usize| #[trigger] call_ensures(f, (s,), n) ==> n == model(s@)
}

/// Whether `f` counts what `model` says.
pub open spec fn counts_messages<G: Fn(&[Json]) -> usize>(
    f: G,
    model: spec_fn(Seq<JsonModel>) -> usize,
) -> bool {
    forall|s: &[Json], n: usize| #[trigger] call_ensures(f, (s,), n) ==> n == model(deep(s@))
}

/// The token counter of a model: how it counts a text and a list of chat messages, and what a
/// message and a list of messages cost beside their texts.
pub struct TokenCounter<F, G> {
    pub text: F,
    pub messages: G,
    pub base_message_tokens: usize,
    pub format_tokens: usize,
}

impl<F: Fn(&str) -> usize, G: Fn(&[Json]) -> usize> TokenCounter<F, G> {
    /// The counter can count everything, and counts the same thing the same way each time.
    pub open spec fn wf(&self) -> bool {
        &&& forall|s: &str| #[trigger] call_requires(self.text, (s,))
        &&& forall|s: &[Json]| #[trigger] call_requires(self.messages, (s,))
        &&& exists|model: spec_fn(Seq<char>) -> usize| counts_text(self.text, model)
        &&& exists|model: spec_fn(Seq<JsonModel>) -> usize| counts_messages(self.messages, model)
    }

    /// What a text costs.
    pub open spec fn tokens(&self, text: Seq<char>) -> nat {
        let model = choose|model: spec_fn(Seq<char>) -> usize| counts_text(self.text, model);
        model(text) as nat
    }

    /// What a list of messages costs.
    pub open spec fn messages_tokens(&self, messages: Seq<JsonModel>) -> nat {
        let model = choose|model: spec_fn(Seq<JsonModel>) -> usize|
            counts_messages(self.messages, model);
        model(messages) as nat
    }

    /// What a text costs.
    pub fn count_text(&self, text: &str) -> (n: usize)
        requires
            self.wf(),
        ensures
            n == self.tokens(text@),
    {
        (self.text)(text)
    }

    /// What a list of messages costs.
    pub fn count_messages(&self, messages: &[Json]) -> (n: usize)
        requires
            self.wf(),
        ensures
            n == self.messages_tokens(deep(messages@)),
    {
        (self.messages)(messages)
    }
}

} // verus!
