//! Generation, token by token: what is checked before it starts, and what
//! happens to each token that was picked.

use crate::error::{Fault, WillametteError};
use crate::text::{cat2, cat4, cat6, cat7, dec, decimal};
use vstd::prelude::*;

verus! {

/// How much work the prompt and the output were. Durations are in nanoseconds,
/// without the time that callers take for themselves. A token that ends the
/// output is not part of it.
#[derive(Clone, Copy, Debug, PartialEq, Eq, Structural)]
pub struct GenerationStats {
    pub prefill_tokens: usize,
    pub prefill_duration: u128,
    pub decode_tokens: usize,
    pub decode_duration: u128,
}

impl GenerationStats {
    /// The tokens of prompt and output.
    pub fn total_tokens(&self) -> (n: usize)
        requires
            self.prefill_tokens + self.decode_tokens <= usize::MAX,
        ensures
            n == self.prefill_tokens + self.decode_tokens,
    {
        self.prefill_tokens + self.decode_tokens
    }

    /// The time for prompt and output.
    pub fn total_duration(&self) -> (n: u128)
        requires
            self.prefill_duration + self.decode_duration <= u128::MAX,
        ensures
            n == self.prefill_duration + self.decode_duration,
    {
        self.prefill_duration + self.decode_duration
    }
}

/// The tokens that were generated, and how much work it was.
#[derive(Clone, Debug)]
pub struct GenerationResult {
    pub generated_tokens: Vec<u32>,
    pub stats: GenerationStats,
}

/// The first of the first `n` tokens that the vocabulary does not have.
pub open spec fn stray_token(ids: Seq<u32>, vocab_size: u32, n: int) -> Option<int>
    decreases n,
{
    if n <= 0 {
        None
    } else if stray_token(ids, vocab_size, n - 1) is Some {
        stray_token(ids, vocab_size, n - 1)
    } else if ids[n - 1] >= vocab_size {
        Some(n - 1)
    } else {
        None
    }
}

/// Why a prompt cannot be used: it is empty, or has a token that the vocabulary
/// does not have.
pub open spec fn prompt_fault(
    operation: Seq<char>,
    ids: Seq<u32>,
    vocab_size: u32,
) -> Option<Fault> {
    if ids.len() == 0 {
        Some(Fault::GgufParse(operation + ": prompt_ids must not be empty"@))
    } else {
        match stray_token(ids, vocab_size, ids.len() as int) {
            Some(i) => Some(
                Fault::GgufParse(
                    operation + ": prompt token "@ + dec(ids[i] as int) + " (idx "@ + dec(i)
                        + ") out of vocab range "@ + dec(vocab_size as int),
                ),
            ),
            None => None,
        }
    }
}

/// How many positions a generation takes: the last token that is picked takes
/// none.
pub open spec fn positions_needed(prompt_len: int, max_new_tokens: int) -> int {
    prompt_len + if max_new_tokens > 0 {
        max_new_tokens - 1
    } else {
        0
    }
}

/// Why a generation has no room.
pub open spec fn budget_fault(
    operation: Seq<char>,
    prompt_len: int,
    max_new_tokens: int,
    max_seq_len: Option<usize>,
    context_length: int,
) -> Option<Fault> {
    let needed = positions_needed(prompt_len, max_new_tokens);
    if max_seq_len matches Some(m) && m > context_length {
        Some(
            Fault::GgufParse(
                operation + ": max_seq_len="@ + dec(max_seq_len->0 as int)
                    + " exceeds model context_length="@ + dec(context_length),
            ),
        )
    } else if needed > usize::MAX {
        Some(
            Fault::GgufParse(
                operation + ": prompt("@ + dec(prompt_len) + ") + generated_positions("@ + dec(
                    needed - prompt_len,
                ) + ") overflows usize"@,
            ),
        )
    } else if needed > context_length {
        Some(
            Fault::GgufParse(
                operation + ": prompt("@ + dec(prompt_len) + ") + max_new_tokens("@ + dec(
                    max_new_tokens,
                ) + ") = "@ + dec(needed) + " exceeds model context_length="@ + dec(
                    context_length,
                ),
            ),
        )
    } else if max_seq_len matches Some(m) && needed > m {
        Some(
            Fault::GgufParse(
                operation + ": prompt("@ + dec(prompt_len) + ") + max_new_tokens("@ + dec(
                    max_new_tokens,
                ) + ") = "@ + dec(needed) + " exceeds max_seq_len="@ + dec(
                    max_seq_len->0 as int,
                ),
            ),
        )
    } else {
        None
    }
}

/// Checks that a prompt can be used.
fn validate_prompt(operation: &str, prompt_ids: &[u32], vocab_size: u32) -> (r: Result<
    (),
    WillametteError,
>)
    ensures
        match r {
            Ok(_) => prompt_fault(operation@, prompt_ids@, vocab_size) is None,
            Err(e) => prompt_fault(operation@, prompt_ids@, vocab_size) == Some(e@),
        },
{
    if prompt_ids.len() == 0 {
        return Err(
            WillametteError::GgufParse(cat2(operation, ": prompt_ids must not be empty")),
        );
    }
    let n: usize = prompt_ids.len();
    let mut i: usize = 0;
    while i < n
        invariant
            i <= n,
            n == prompt_ids@.len(),
            stray_token(prompt_ids@, vocab_size, i as int) is None,
        decreases n - i,
    {
        if prompt_ids[i] >= vocab_size {
            let a = decimal(prompt_ids[i] as u64);
            let b = decimal(i as u64);
            let c = decimal(vocab_size as u64);
            proof {
                lemma_stray_stays(prompt_ids@, vocab_size, i + 1, n as int);
            }
            return Err(
                WillametteError::GgufParse(
                    cat7(
                        operation,
                        ": prompt token ",
                        a.as_str(),
                        " (idx ",
                        b.as_str(),
                        ") out of vocab range ",
                        c.as_str(),
                    ),
                ),
            );
        }
        i = i + 1;
    }
    Ok(())
}

/// The first stray token stays the first.
proof fn lemma_stray_stays(ids: Seq<u32>, vocab_size: u32, n: int, m: int)
    requires
        0 <= n <= m,
        stray_token(ids, vocab_size, n) is Some,
    ensures
        stray_token(ids, vocab_size, m) == stray_token(ids, vocab_size, n),
    decreases m - n,
{
    if n < m {
        lemma_stray_stays(ids, vocab_size, n, m - 1);
    }
}

/// Checks that a generation has room in the context of the model and in the
/// cache.
pub fn validate_generation_budget(
    operation: &str,
    prompt_len: usize,
    max_new_tokens: usize,
    max_seq_len: Option<usize>,
    context_length: usize,
) -> (r: Result<(), WillametteError>)
    ensures
        match r {
            Ok(_) => budget_fault(
                operation@,
                prompt_len as int,
                max_new_tokens as int,
                max_seq_len,
                context_length as int,
            ) is None,
            Err(e) => budget_fault(
                operation@,
                prompt_len as int,
                max_new_tokens as int,
                max_seq_len,
                context_length as int,
            ) == Some(e@),
        },
{
    match max_seq_len {
        Some(m) => {
            if m > context_length {
                let a = decimal(m as u64);
                let b = decimal(context_length as u64);
                let mut text = cat4(
                    operation,
                    ": max_seq_len=",
                    a.as_str(),
                    " exceeds model context_length=",
                );
                text.append(b.as_str());
                return Err(WillametteError::GgufParse(text));
            }
        },
        None => {},
    }
    let generated: usize = if max_new_tokens > 0 {
        max_new_tokens - 1
    } else {
        0
    };
    let needed: usize = match prompt_len.checked_add(generated) {
        Some(n) => n,
        None => {
            let a = decimal(prompt_len as u64);
            let b = decimal(generated as u64);
            return Err(
                WillametteError::GgufParse(
                    cat6(
                        operation,
                        ": prompt(",
                        a.as_str(),
                        ") + generated_positions(",
                        b.as_str(),
                        ") overflows usize",
                    ),
                ),
            );
        },
    };
    let a = decimal(prompt_len as u64);
    let b = decimal(max_new_tokens as u64);
    let c = decimal(needed as u64);
    let mut text = cat7(
        operation,
        ": prompt(",
        a.as_str(),
        ") + max_new_tokens(",
        b.as_str(),
        ") = ",
        c.as_str(),
    );
    if needed > context_length {
        let d = decimal(context_length as u64);
        text.append(" exceeds model context_length=");
        text.append(d.as_str());
        return Err(WillametteError::GgufParse(text));
    }
    match max_seq_len {
        Some(m) => {
            if needed > m {
                let d = decimal(m as u64);
                text.append(" exceeds max_seq_len=");
                text.append(d.as_str());
                return Err(WillametteError::GgufParse(text));
            }
        },
        None => {},
    }
    Ok(())
}

/// Why the token of a single step cannot be used.
pub open spec fn single_token_fault(token: u32, vocab_size: u32) -> Option<Fault> {
    if token >= vocab_size {
        Some(
            Fault::GgufParse(
                "greedy_next_token: token id "@ + dec(token as int)
                    + " out of vocab range (size "@ + dec(vocab_size as int) + ")"@,
            ),
        )
    } else {
        None
    }
}

/// Checks the token of a single step.
pub fn validate_single_token(token: u32, vocab_size: u32) -> (r: Result<(), WillametteError>)
    ensures
        match r {
            Ok(_) => single_token_fault(token, vocab_size) is None,
            Err(e) => single_token_fault(token, vocab_size) == Some(e@),
        },
{
    if token >= vocab_size {
        let a = decimal(token as u64);
        let b = decimal(vocab_size as u64);
        let mut text = cat4(
            "greedy_next_token: token id ",
            a.as_str(),
            " out of vocab range (size ",
            b.as_str(),
        );
        text.append(")");
        return Err(WillametteError::GgufParse(text));
    }
    Ok(())
}

/// A generation in progress, as a mathematical object.
#[verifier::ext_equal]
pub struct RunState {
    pub prompt_len: int,
    pub max_new_tokens: int,
    pub eos: Option<u32>,
    pub stops: Seq<u32>,
    pub generated: Seq<u32>,
    /// How many positions have gone through the model.
    pub forwarded: int,
    /// A token ended the output.
    pub ended: bool,
}

/// What happens to a token that was picked.
#[derive(Clone, Copy, Debug, PartialEq, Eq, Structural)]
pub enum Decision {
    /// The output ends; the token is not part of it.
    End,
    /// The token is part of the output. It was picked in a step, for a
    /// position; where more tokens are wanted it goes through the model there.
    Accept { step: usize, position: usize, forward: bool },
}

impl RunState {
    /// A token ends the output.
    pub open spec fn ends(self, token: u32) -> bool {
        self.eos == Some(token) || self.stops.contains(token)
    }

    /// Another token is wanted.
    pub open spec fn wants(self) -> bool {
        !self.ended && self.generated.len() < self.max_new_tokens
    }

    /// A token was picked.
    pub open spec fn picked(self, token: u32) -> RunState {
        if self.ends(token) {
            RunState { ended: true, ..self }
        } else {
            RunState {
                generated: self.generated.push(token),
                forwarded: if self.generated.len() + 1 < self.max_new_tokens {
                    self.forwarded + 1
                } else {
                    self.forwarded
                },
                ..self
            }
        }
    }

    /// What happens to a token that was picked.
    pub open spec fn decision(self, token: u32) -> Decision {
        if self.ends(token) {
            Decision::End
        } else {
            Decision::Accept {
                step: self.generated.len() as usize,
                position: self.forwarded as usize,
                forward: self.generated.len() + 1 < self.max_new_tokens,
            }
        }
    }

    /// The prompt and every token that was followed by another have gone
    /// through the model, and nothing in the output ends it.
    pub open spec fn wf(self) -> bool {
        &&& 0 < self.prompt_len
        &&& 0 <= self.max_new_tokens
        &&& self.generated.len() <= self.max_new_tokens
        &&& self.forwarded == self.prompt_len + if self.generated.len() < self.max_new_tokens {
            self.generated.len() as int
        } else if self.max_new_tokens > 0 {
            self.max_new_tokens - 1
        } else {
            0
        }
        &&& forall|i: int|
            0 <= i < self.generated.len() ==> !self.ends(#[trigger] self.generated[i])
    }
}

/// A token keeps the state sound.
pub proof fn picking_keeps_the_state(s: RunState, token: u32)
    requires
        s.wf(),
        s.wants(),
    ensures
        s.picked(token).wf(),
{
    let t = s.picked(token);
    assert forall|i: int| 0 <= i < t.generated.len() implies !t.ends(#[trigger] t.generated[i]) by {
        if i < s.generated.len() {
            assert(!s.ends(s.generated[i]));
        }
    }
}

/// A generation that had room stays in it: it never takes more positions than
/// the model or the cache has.
pub proof fn generation_stays_in_its_budget(
    s: RunState,
    operation: Seq<char>,
    max_seq_len: Option<usize>,
    context_length: int,
)
    requires
        s.wf(),
        budget_fault(
            operation,
            s.prompt_len,
            s.max_new_tokens,
            max_seq_len,
            context_length,
        ) is None,
    ensures
        s.forwarded <= context_length,
        max_seq_len matches Some(m) ==> s.forwarded <= m,
        s.generated.len() <= s.max_new_tokens,
{
}

/// A generation in progress.
#[derive(Debug)]
pub struct Generation {
    prompt_len: usize,
    max_new_tokens: usize,
    eos: Option<u32>,
    stops: Vec<u32>,
    generated: Vec<u32>,
    forwarded: usize,
    ended: bool,
}

impl View for Generation {
    type V = RunState;

    closed spec fn view(&self) -> RunState {
        RunState {
            prompt_len: self.prompt_len as int,
            max_new_tokens: self.max_new_tokens as int,
            eos: self.eos,
            stops: self.stops@,
            generated: self.generated@,
            forwarded: self.forwarded as int,
            ended: self.ended,
        }
    }
}

impl Generation {
    /// The numbers of the generation can be counted.
    pub closed spec fn wf(&self) -> bool {
        &&& self@.wf()
        &&& positions_needed(self.prompt_len as int, self.max_new_tokens as int) <= usize::MAX
    }

    /// The output is within its limit and holds nothing that ends it, and the
    /// positions that are taken are those of prompt and output. All of them can be
    /// counted, so a token is handed out with exactly its step and its position.
    pub proof fn state_is_sound(&self)
        requires
            self.wf(),
        ensures
            self@.wf(),
            positions_needed(self@.prompt_len, self@.max_new_tokens) <= usize::MAX,
            self@.wants() ==> forall|token: u32|
                (#[trigger] self@.decision(token)) matches Decision::Accept { step, position, .. }
                    ==> step == self@.generated.len() && position == self@.forwarded,
    {
    }

    /// Checks a prompt and the room for its output, and starts a generation.
    pub fn start(
        operation: &str,
        prompt_ids: &[u32],
        vocab_size: u32,
        max_new_tokens: usize,
        max_seq_len: Option<usize>,
        context_length: usize,
        eos: Option<u32>,
        stops: Vec<u32>,
    ) -> (r: Result<Self, WillametteError>)
        ensures
            match r {
                Ok(g) => {
                    &&& prompt_fault(operation@, prompt_ids@, vocab_size) is None
                    &&& budget_fault(
                        operation@,
                        prompt_ids@.len() as int,
                        max_new_tokens as int,
                        max_seq_len,
                        context_length as int,
                    ) is None
                    &&& g.wf()
                    &&& g@ == (RunState {
                        prompt_len: prompt_ids@.len() as int,
                        max_new_tokens: max_new_tokens as int,
                        eos,
                        stops: stops@,
                        generated: Seq::empty(),
                        forwarded: prompt_ids@.len() as int,
                        ended: false,
                    })
                },
                Err(e) => if prompt_fault(operation@, prompt_ids@, vocab_size) is Some {
                    prompt_fault(operation@, prompt_ids@, vocab_size) == Some(e@)
                } else {
                    budget_fault(
                        operation@,
                        prompt_ids@.len() as int,
                        max_new_tokens as int,
                        max_seq_len,
                        context_length as int,
                    ) == Some(e@)
                },
            },
    {
        match validate_prompt(operation, prompt_ids, vocab_size) {
            Ok(_) => {},
            Err(e) => {
                return Err(e);
            },
        }
        match validate_generation_budget(
            operation,
            prompt_ids.len(),
            max_new_tokens,
            max_seq_len,
            context_length,
        ) {
            Ok(_) => {},
            Err(e) => {
                return Err(e);
            },
        }
        let g = Generation {
            prompt_len: prompt_ids.len(),
            max_new_tokens,
            eos,
            stops,
            generated: Vec::new(),
            forwarded: prompt_ids.len(),
            ended: false,
        };
        proof {
            assert(g@.generated =~= Seq::empty());
        }
        Ok(g)
    }

    /// Whether another token is wanted.
    pub fn wants_token(&self) -> (b: bool)
        ensures
            b == self@.wants(),
    {
        !self.ended && self.generated.len() < self.max_new_tokens
    }

    /// Whether a token ends the output.
    fn ends_output(&self, token: u32) -> (b: bool)
        ensures
            b == self@.ends(token),
    {
        match self.eos {
            Some(e) => {
                if e == token {
                    return true;
                }
            },
            None => {},
        }
        let mut i: usize = 0;
        while i < self.stops.len()
            invariant
                i <= self.stops@.len(),
                self@.eos != Some(token),
                forall|k: int| 0 <= k < i ==> #[trigger] self.stops@[k] != token,
            decreases self.stops.len() - i,
        {
            if self.stops[i] == token {
                proof {
                    assert(self.stops@.contains(token));
                }
                return true;
            }
            i = i + 1;
        }
        false
    }

    /// Takes a token that was picked.
    pub fn offer(&mut self, token: u32) -> (d: Decision)
        requires
            old(self).wf(),
            old(self)@.wants(),
        ensures
            final(self).wf(),
            final(self)@ == old(self)@.picked(token),
            d == old(self)@.decision(token),
    {
        proof {
            picking_keeps_the_state(self@, token);
        }
        if self.ends_output(token) {
            self.ended = true;
            return Decision::End;
        }
        let step: usize = self.generated.len();
        let position: usize = self.forwarded;
        let forward = step + 1 < self.max_new_tokens;
        self.generated.push(token);
        if forward {
            self.forwarded = self.forwarded + 1;
        }
        Decision::Accept { step, position, forward }
    }

    /// The tokens so far.
    pub fn generated(&self) -> (r: &Vec<u32>)
        ensures
            r@ == self@.generated,
    {
        &self.generated
    }

    /// The tokens and how much work they were.
    pub fn finish(self, prefill_duration: u128, decode_duration: u128) -> (r: GenerationResult)
        ensures
            r.generated_tokens@ == self@.generated,
            r.stats.prefill_tokens == self@.prompt_len,
            r.stats.prefill_duration == prefill_duration,
            r.stats.decode_tokens == self@.generated.len(),
            r.stats.decode_duration == decode_duration,
    {
        let stats = GenerationStats {
            prefill_tokens: self.prompt_len,
            prefill_duration,
            decode_tokens: self.generated.len(),
            decode_duration,
        };
        GenerationResult { generated_tokens: self.generated, stats }
    }
}

/// A token that ends the output is not part of it, and nothing is wanted behind it. Any
/// other token becomes the last one of the output; it stands at the position behind the
/// prompt and the tokens before it, and goes through the model exactly where another token
/// is wanted.
pub proof fn decisions_follow_the_output(s: RunState, token: u32)
    requires
        s.wf(),
        s.wants(),
        positions_needed(s.prompt_len, s.max_new_tokens) <= usize::MAX,
        s.max_new_tokens <= usize::MAX,
    ensures
        match s.decision(token) {
            Decision::End => {
                &&& s.eos == Some(token) || s.stops.contains(token)
                &&& s.picked(token).generated == s.generated
                &&& !s.picked(token).wants()
            },
            Decision::Accept { step, position, forward } => {
                &&& s.eos != Some(token) && !s.stops.contains(token)
                &&& s.picked(token).generated == s.generated.push(token)
                &&& step == s.generated.len()
                &&& position == s.prompt_len + step
                &&& forward == s.picked(token).wants()
                &&& forward ==> s.picked(token).forwarded == position + 1
                &&& !forward ==> s.picked(token).forwarded == position
            },
        },
        s.picked(token).prompt_len == s.prompt_len,
        s.picked(token).max_new_tokens == s.max_new_tokens,
{
}

/// A generation that used up its limit has taken exactly the positions that were counted
/// for it, and one that did not has taken no more.
pub proof fn positions_are_counted_in_advance(s: RunState)
    requires
        s.wf(),
    ensures
        s.forwarded <= positions_needed(s.prompt_len, s.max_new_tokens),
        s.generated.len() == s.max_new_tokens ==> s.forwarded == positions_needed(
            s.prompt_len,
            s.max_new_tokens,
        ),
        positions_needed(s.prompt_len, 0) == s.prompt_len,
        positions_needed(s.prompt_len, 1) == s.prompt_len,
{
}

/// The token that is reported is the first one that the vocabulary does not have.
pub proof fn first_stray_token_is_found(ids: Seq<u32>, vocab_size: u32, n: int)
    requires
        0 <= n <= ids.len(),
    ensures
        match stray_token(ids, vocab_size, n) {
            Some(i) => {
                &&& 0 <= i < n
                &&& ids[i] >= vocab_size
                &&& forall|j: int| 0 <= j < i ==> #[trigger] ids[j] < vocab_size
            },
            None => forall|j: int| 0 <= j < n ==> #[trigger] ids[j] < vocab_size,
        },
    decreases n,
{
    if n > 0 {
        first_stray_token_is_found(ids, vocab_size, n - 1);
    }
}


} // verus!
