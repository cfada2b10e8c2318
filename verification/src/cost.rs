//! Token accounting across the model calls of a session.

use vstd::prelude::*;

verus! {

/// Token counts that a model endpoint reports for one call.
#[derive(Clone, Copy, Debug, PartialEq, Eq)]
pub struct TokenUsage {
    pub prompt_tokens: usize,
    pub completion_tokens: usize,
    pub total_tokens: usize,
}

impl TokenUsage {
    /// All counts zero.
    pub open spec fn zero_spec() -> TokenUsage {
        TokenUsage { prompt_tokens: 0, completion_tokens: 0, total_tokens: 0 }
    }

    /// The usage of a call for which the endpoint reported nothing.
    pub fn zero() -> (u: TokenUsage)
        ensures
            u == TokenUsage::zero_spec(),
    {
        TokenUsage { prompt_tokens: 0, completion_tokens: 0, total_tokens: 0 }
    }
}

/// Running token totals and call count (the integer part of the cost
/// tracker; the price in money is kept beside it by the application).
#[derive(Clone, Copy, Debug)]
pub struct TokenTotals {
    pub total_input_tokens: usize,
    pub total_output_tokens: usize,
    pub call_count: usize,
}

impl TokenTotals {
    /// No call recorded yet.
    pub fn new() -> (t: TokenTotals)
        ensures
            t.total_input_tokens == 0 && t.total_output_tokens == 0 && t.call_count == 0,
    {
        TokenTotals { total_input_tokens: 0, total_output_tokens: 0, call_count: 0 }
    }

    /// Adds one call's prompt and completion tokens and counts the call.
    pub fn record(&mut self, usage: &TokenUsage)
        requires
            old(self).total_input_tokens + usage.prompt_tokens <= usize::MAX,
            old(self).total_output_tokens + usage.completion_tokens <= usize::MAX,
            old(self).call_count < usize::MAX,
        ensures
            final(self).total_input_tokens == old(self).total_input_tokens + usage.prompt_tokens,
            final(self).total_output_tokens == old(self).total_output_tokens + usage.completion_tokens,
            final(self).call_count == old(self).call_count + 1,
    {
        self.total_input_tokens = self.total_input_tokens + usage.prompt_tokens;
        self.total_output_tokens = self.total_output_tokens + usage.completion_tokens;
        self.call_count = self.call_count + 1;
    }

    /// Whether `record(usage)` keeps every total within `usize`.
    pub fn can_record(&self, usage: &TokenUsage) -> (b: bool)
        ensures
            b == (self.total_input_tokens + usage.prompt_tokens <= usize::MAX
                && self.total_output_tokens + usage.completion_tokens <= usize::MAX
                && self.call_count < usize::MAX),
    {
        usage.prompt_tokens <= usize::MAX - self.total_input_tokens
            && usage.completion_tokens <= usize::MAX - self.total_output_tokens
            && self.call_count < usize::MAX
    }

    /// Input plus output tokens so far.
    pub fn total_tokens(&self) -> (n: usize)
        requires
            self.total_input_tokens + self.total_output_tokens <= usize::MAX,
        ensures
            n == self.total_input_tokens + self.total_output_tokens,
    {
        self.total_input_tokens + self.total_output_tokens
    }
}

} // verus!
