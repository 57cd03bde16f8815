//! The choice of the next token.
//!
//! How a token is drawn from the logits is the business of
//! `candle_transformers`. The library decides which way of drawing a
//! configuration asks for, and sees to it that no token leaves the sampler
//! that the vocabulary does not hold.

use vstd::prelude::*;
use crate::inference::tensors::{extent_of, tensor_dims};

verus! {

/// A sampler of the backend, with the state of its random numbers.
#[verifier::external_type_specification]
#[verifier::external_body]
pub struct ExLogitsProcessor(candle_transformers::generation::LogitsProcessor);

/// Calls `LogitsProcessor::from_sampling` for `Sampling::ArgMax`. Nothing
/// is claimed of the processor.
#[verifier::external_body]
fn greedy_processor(seed: u64) -> candle_transformers::generation::LogitsProcessor {
    candle_transformers::generation::LogitsProcessor::from_sampling(
        seed,
        candle_transformers::generation::Sampling::ArgMax,
    )
}

/// The extent of a tensor once its first axis is dropped where its size is
/// one.
pub open spec fn row_extent(extent: Seq<usize>) -> Seq<usize> {
    if extent.len() > 0 && extent[0] == 1 {
        extent.skip(1)
    } else {
        extent
    }
}

/// A tensor of this extent is one row of scores, with at least one score.
pub open spec fn drawable(extent: Seq<usize>) -> bool {
    extent.len() == 1 && extent[0] > 0
}

/// Calls `Tensor::squeeze` for the first axis, which drops it where its
/// size is one and fails only on a tensor without axes. A failure comes
/// back as its message.
#[verifier::external_body]
fn first_row(logits: &candle_core::Tensor) -> (r: Result<candle_core::Tensor, String>)
    ensures
        match r {
            Ok(row) => tensor_dims(*logits).len() > 0 && tensor_dims(row) == row_extent(
                tensor_dims(*logits),
            ),
            Err(_) => tensor_dims(*logits).len() == 0,
        },
{
    logits.squeeze(0).map_err(|e| e.to_string())
}

/// Calls `LogitsProcessor::sample`. With a temperature it takes the
/// softmax along the last axis, in rows that must not be empty, so the
/// logits must be one row of scores with at least one score. What is drawn
/// depends on the state of the processor, so nothing is claimed of it; a
/// failure comes back as its message.
#[verifier::external_body]
fn draw(
    processor: &mut candle_transformers::generation::LogitsProcessor,
    logits: &candle_core::Tensor,
) -> Result<u32, String>
    requires
        drawable(tensor_dims(*logits)),
{
    processor.sample(logits).map_err(|e| e.to_string())
}

/// Whether a tensor of this extent is one row of scores, with at least one
/// score.
pub fn is_drawable(extent: &Vec<usize>) -> (ok: bool)
    ensures
        ok == drawable(extent@),
{
    extent.len() == 1 && extent[0] > 0
}

/// The ways of drawing a token.
#[derive(Clone, Copy, Debug, PartialEq, Eq, Structural)]
pub enum SamplingStrategy {
    /// The most likely token.
    ArgMax,
    /// Any token, by its probability.
    All,
    /// One of the `k` most likely tokens.
    TopK { k: usize },
    /// One of the most likely tokens that together reach the threshold.
    TopP,
    /// The `k` most likely tokens first, the threshold among them after.
    TopKThenTopP { k: usize },
}

/// The way of drawing that a configuration asks for: the most likely token
/// unless the temperature is above zero, and otherwise as the two limits
/// say.
pub open spec fn strategy_for(temperature_positive: bool, top_k: Option<usize>, top_p_given: bool) -> SamplingStrategy {
    if !temperature_positive {
        SamplingStrategy::ArgMax
    } else {
        match top_k {
            None => if top_p_given {
                SamplingStrategy::TopP
            } else {
                SamplingStrategy::All
            },
            Some(k) => if top_p_given {
                SamplingStrategy::TopKThenTopP { k }
            } else {
                SamplingStrategy::TopK { k }
            },
        }
    }
}

/// The way of drawing that a configuration asks for.
pub fn choose_strategy(temperature_positive: bool, top_k: Option<usize>, top_p_given: bool) -> (s:
    SamplingStrategy)
    ensures
        s == strategy_for(temperature_positive, top_k, top_p_given),
{
    if !temperature_positive {
        SamplingStrategy::ArgMax
    } else {
        match top_k {
            None => if top_p_given {
                SamplingStrategy::TopP
            } else {
                SamplingStrategy::All
            },
            Some(k) => if top_p_given {
                SamplingStrategy::TopKThenTopP { k }
            } else {
                SamplingStrategy::TopK { k }
            },
        }
    }
}

/// A token drawn by the backend is let through where the vocabulary holds
/// it.
pub open spec fn checked_token(drawn: Result<u32, String>, vocab_size: usize) -> Option<u32> {
    match drawn {
        Ok(t) => if t < vocab_size {
            Some(t)
        } else {
            None
        },
        Err(_) => None,
    }
}

/// Lets a drawn token through where the vocabulary holds it, turns down
/// one that it does not hold, and hands a failure on with its reason.
pub fn check_token(drawn: Result<u32, String>, vocab_size: usize) -> (r: Result<u32, String>)
    ensures
        match r {
            Ok(t) => checked_token(drawn, vocab_size) == Some(t),
            Err(_) => checked_token(drawn, vocab_size) is None,
        },
        drawn matches Err(reason) ==> r == Err::<u32, String>(reason),
        drawn is Ok && r is Err ==> r->Err_0@ == "The token drawn is not of the vocabulary"@,
{
    match drawn {
        Ok(t) => {
            if (t as usize) < vocab_size {
                Ok(t)
            } else {
                Err(String::from_str("The token drawn is not of the vocabulary"))
            }
        },
        Err(why) => Err(why),
    }
}

/// A processor of the backend together with the size of the vocabulary it
/// draws from.
pub struct Sampler {
    processor: candle_transformers::generation::LogitsProcessor,
    vocab_size: usize,
}

impl Sampler {
    pub closed spec fn spec_vocab_size(&self) -> usize {
        self.vocab_size
    }

    /// A sampler that always takes the most likely token.
    pub fn greedy(seed: u64, vocab_size: usize) -> (s: Self)
        ensures
            s.spec_vocab_size() == vocab_size,
    {
        Sampler { processor: greedy_processor(seed), vocab_size }
    }

    /// A sampler around a processor that the caller has set up.
    pub fn from_processor(
        processor: candle_transformers::generation::LogitsProcessor,
        vocab_size: usize,
    ) -> (s: Self)
        ensures
            s.spec_vocab_size() == vocab_size,
    {
        Sampler { processor, vocab_size }
    }

    /// Draws the next token from `logits`, which are one row of scores, or
    /// a batch of one such row. Logits of any other extent are turned down,
    /// as is a row without scores. Every token that comes back is one of
    /// the vocabulary.
    pub fn sample(&mut self, logits: &candle_core::Tensor) -> (r: Result<u32, String>)
        ensures
            final(self).spec_vocab_size() == old(self).spec_vocab_size(),
            r matches Ok(t) ==> t < old(self).spec_vocab_size(),
            !drawable(tensor_dims(*logits)) && !drawable(row_extent(tensor_dims(*logits)))
                ==> r is Err,
    {
        if is_drawable(&extent_of(logits)) {
            let drawn = draw(&mut self.processor, logits);
            return check_token(drawn, self.vocab_size);
        }
        let row = match first_row(logits) {
            Ok(t) => t,
            Err(why) => {
                return Err(why);
            },
        };
        if !is_drawable(&extent_of(&row)) {
            return Err(String::from_str("The logits are not one row of scores"));
        }
        let drawn = draw(&mut self.processor, &row);
        check_token(drawn, self.vocab_size)
    }
}

} // verus!
