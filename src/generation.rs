use vstd::prelude::*;

verus! {

/// The token list of an autoregressive generation, and when it stops: at `max_len` tokens, at
/// the end-of-sequence token, or when the cache has no room for another position.
pub struct Generation {
    tokens: Vec<u32>,
    max_len: usize,
    eos: u32,
}

/// Whether generation goes on after `tokens`, whose last entry was just sampled.
pub open spec fn keeps_going(tokens: Seq<u32>, max_len: usize, eos: u32, room: usize) -> bool {
    tokens.len() < max_len && tokens.last() != eos && room >= 1
}

impl Generation {
    pub closed spec fn spec_tokens(&self) -> Seq<u32> {
        self.tokens@
    }

    pub closed spec fn spec_max_len(&self) -> usize {
        self.max_len
    }

    pub closed spec fn spec_eos(&self) -> u32 {
        self.eos
    }

    /// A generation whose list starts as `prefix` (the prompt, or nothing when only new tokens
    /// are wanted).
    pub fn new(prefix: Vec<u32>, max_len: usize, eos: u32) -> (r: Generation)
        ensures
            r.spec_tokens() == prefix@,
            r.spec_max_len() == max_len,
            r.spec_eos() == eos,
    {
        Generation { tokens: prefix, max_len, eos }
    }

    /// Appends the token just sampled and says whether another forward pass is wanted, given
    /// `room`, the number of positions still free in the cache.
    pub fn record_token(&mut self, token: u32, room: usize) -> (r: bool)
        ensures
            final(self).spec_tokens() == old(self).spec_tokens().push(token),
            final(self).spec_max_len() == old(self).spec_max_len(),
            final(self).spec_eos() == old(self).spec_eos(),
            r == keeps_going(final(self).spec_tokens(), final(self).spec_max_len(), final(self).spec_eos(), room),
    {
        self.tokens.push(token);
        self.tokens.len() < self.max_len && token != self.eos && room >= 1
    }

    pub fn tokens(&self) -> (r: &Vec<u32>)
        ensures
            r@ == self.spec_tokens(),
    {
        &self.tokens
    }

    pub fn into_tokens(self) -> (r: Vec<u32>)
        ensures
            r@ == self.spec_tokens(),
    {
        self.tokens
    }
}

} // verus!
