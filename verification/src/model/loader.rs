//! A model in memory: its weights, held by the tensor backend, and what its
//! file says of it.
//!
//! Opening and mapping the file is the caller's business; the library is
//! handed the bytes.

use vstd::prelude::*;
use candle_core::quantized::gguf_file::Value;
use crate::inference::tensors::{extent_of, tensor_dims};
use crate::model::alignment::{gives_zero_alignment, may_align_to_zero};
use crate::model::metadata::{
    architecture_of, describes, extract_metadata, first_fault, reports, GgufMetadata, LoadError,
    MetadataEntry, MetadataValue,
};
use crate::text::same_text;

verus! {

/// The header of a GGUF file as the backend reads it.
#[verifier::external_type_specification]
#[verifier::external_body]
pub struct ExGgufContent(candle_core::quantized::gguf_file::Content);

/// One value of the key/value section as the backend reads it.
#[verifier::external_type_specification]
#[verifier::external_body]
pub struct ExGgufValue(candle_core::quantized::gguf_file::Value);

/// The weights of a model of the LLaMA family, with the state they keep
/// between calls.
#[verifier::external_type_specification]
#[verifier::external_body]
pub struct ExLlamaWeights(candle_transformers::models::quantized_llama::ModelWeights);

/// The weights of a model of the LFM2 kind, with the state they keep
/// between calls.
#[verifier::external_type_specification]
#[verifier::external_body]
pub struct ExLfm2Weights(candle_transformers::models::quantized_lfm2::ModelWeights);

/// Whether `gguf_file::Content::read` reads the header of a GGUF file out
/// of `bytes`.
pub uninterp spec fn gguf_readable(bytes: Seq<u8>) -> bool;

/// Calls `gguf_file::Content::read` on the bytes of a model file. Once it
/// has read the header it divides by the alignment that the header gives,
/// so the bytes must not be such that this could be zero. Whether it
/// succeeds is a function of the bytes; nothing is claimed of what is
/// read, and a failure comes back as its message.
#[verifier::external_body]
fn read_content(bytes: &[u8]) -> (r: Result<candle_core::quantized::gguf_file::Content, String>)
    requires
        !may_align_to_zero(bytes@),
    ensures
        r is Ok <==> gguf_readable(bytes@),
{
    candle_core::quantized::gguf_file::Content::read(&mut std::io::Cursor::new(bytes)).map_err(
        |e| e.to_string(),
    )
}

/// The 32-bit unsigned values of the key/value section that the backend
/// read, by their keys.
pub uninterp spec fn gguf_counts(content: candle_core::quantized::gguf_file::Content) -> Map<
    Seq<char>,
    u32,
>;

/// The number of key/value heads that weights of the LLaMA family were
/// made with.
pub uninterp spec fn llama_kv_heads(
    weights: candle_transformers::models::quantized_llama::ModelWeights,
) -> nat;

/// The size along its first axis that the header gives the tensor
/// `blk.<layer>.ffn_gate_inp.weight`, the router of a layer with several
/// experts: the number of the router's outputs. `None` where the header
/// has no such tensor, or gives it no axis.
pub uninterp spec fn gguf_gate_rows(
    content: candle_core::quantized::gguf_file::Content,
    layer: nat,
) -> Option<usize>;

/// The extents that the header gives its tensors: for each tensor the
/// sizes of its shape, in the order in which the backend keeps them.
pub uninterp spec fn gguf_extents(content: candle_core::quantized::gguf_file::Content) -> Set<
    Seq<usize>,
>;

/// The number of elements of a tensor of extent `dims`: the product of its
/// sizes.
pub open spec fn count_of(dims: Seq<usize>) -> nat
    decreases dims.len(),
{
    if dims.len() == 0 {
        1
    } else {
        count_of(dims.drop_last()) * (dims.last() as nat)
    }
}

/// The elements of a tensor of extent `dims` can be counted and held: the
/// product of its sizes, taken from the first on, stays at every step
/// within a sixteenth of a machine word, which leaves room for the bytes
/// of each element.
pub open spec fn counts_fit(dims: Seq<usize>) -> bool {
    forall|k: int| 0 <= k <= dims.len() ==> (#[trigger] count_of(dims.take(k))) * 16 <= usize::MAX
}

/// The elements of every tensor that the header lists can be counted and
/// held.
pub open spec fn extents_fit(content: candle_core::quantized::gguf_file::Content) -> bool {
    forall|dims: Seq<usize>| #[trigger] gguf_extents(content).contains(dims) ==> counts_fit(dims)
}

/// Whether no router of weights of the LLaMA family has more outputs than
/// its layer has experts.
pub uninterp spec fn llama_routed(
    weights: candle_transformers::models::quantized_llama::ModelWeights,
) -> bool;

/// Whether `quantized_llama::ModelWeights::from_gguf` makes weights for the
/// CPU out of this header and these bytes.
pub uninterp spec fn llama_loadable(
    content: candle_core::quantized::gguf_file::Content,
    bytes: Seq<u8>,
) -> bool;

/// Whether `quantized_lfm2::ModelWeights::from_gguf` makes weights for the
/// CPU out of this header and these bytes.
pub uninterp spec fn lfm2_loadable(
    content: candle_core::quantized::gguf_file::Content,
    bytes: Seq<u8>,
) -> bool;

/// The count that the header gives under `key`, and zero where it gives
/// none.
pub open spec fn count_or_zero(
    content: candle_core::quantized::gguf_file::Content,
    key: Seq<char>,
) -> nat {
    if gguf_counts(content).dom().contains(key) {
        gguf_counts(content)[key] as nat
    } else {
        0
    }
}

/// Where a model of the LLaMA family has several experts, no router among
/// its layers has more outputs than there are experts.
pub open spec fn routes_fit(content: candle_core::quantized::gguf_file::Content) -> bool {
    let experts = count_or_zero(content, "llama.expert_count"@);
    experts > 1 ==> forall|layer: nat|
        layer < count_or_zero(content, "llama.block_count"@) ==> (#[trigger] gguf_gate_rows(
            content,
            layer,
        ) matches Some(rows) ==> rows <= experts)
}

/// A head count that is given is not zero.
pub open spec fn heads_given(
    content: candle_core::quantized::gguf_file::Content,
    key: Seq<char>,
) -> bool {
    gguf_counts(content).dom().contains(key) ==> gguf_counts(content)[key] != 0
}

/// Walks the tensors of a `gguf_file::Content` and hands out the sizes of
/// the shape of each, in the order in which the map was walked.
#[verifier::external_body]
fn tensor_extents(content: &candle_core::quantized::gguf_file::Content) -> (r: Vec<Vec<usize>>)
    ensures
        forall|dims: Seq<usize>| #[trigger]
            gguf_extents(*content).contains(dims) <==> exists|i: int|
                0 <= i < r@.len() && (#[trigger] r@[i])@ == dims,
{
    content.tensor_infos.values().map(|info| info.shape.dims().to_vec()).collect()
}

/// Looks the tensor `blk.<layer>.ffn_gate_inp.weight` up among the tensors
/// of a `gguf_file::Content` and hands back the first of the sizes of its
/// shape.
#[verifier::external_body]
fn gate_rows(content: &candle_core::quantized::gguf_file::Content, layer: usize) -> (r: Option<
    usize,
>)
    ensures
        r == gguf_gate_rows(*content, layer as nat),
{
    content.tensor_infos.get(&format!("blk.{layer}.ffn_gate_inp.weight")).and_then(
        |info| info.shape.dims().first().copied(),
    )
}

/// Looks `key` up in the key/value map of a `gguf_file::Content` and calls
/// `Value::to_u32` on what is found: the value where it is a 32-bit
/// unsigned integer.
#[verifier::external_body]
fn count_under(content: &candle_core::quantized::gguf_file::Content, key: &str) -> (r: Option<u32>)
    ensures
        match r {
            Some(n) => gguf_counts(*content).dom().contains(key@) && gguf_counts(*content)[key@]
                == n,
            None => !gguf_counts(*content).dom().contains(key@),
        },
{
    content.metadata.get(key).and_then(|v| v.to_u32().ok())
}

/// Tells the variants of `gguf_file::Value` apart and hands the value on
/// in the library's own type: signed integers widened, text and lists
/// copied, unsigned integers as `Value::to_u64` widens them, all else as
/// `Other`.
#[verifier::external_body]
fn plain_value(value: &Value) -> MetadataValue {
    match value {
        Value::I8(v) => MetadataValue::Signed(i64::from(*v)),
        Value::I16(v) => MetadataValue::Signed(i64::from(*v)),
        Value::I32(v) => MetadataValue::Signed(i64::from(*v)),
        Value::I64(v) => MetadataValue::Signed(*v),
        Value::String(s) => MetadataValue::Text(s.clone()),
        Value::Array(items) => MetadataValue::List(items.iter().map(plain_value).collect()),
        Value::Bool(_) => MetadataValue::Other,
        other => other.to_u64().map_or(MetadataValue::Other, MetadataValue::Unsigned),
    }
}

/// Walks the key/value map of a `gguf_file::Content` and hands its entries
/// on, in the order in which the map was walked. Nothing is claimed of
/// them.
#[verifier::external_body]
fn content_entries(content: &candle_core::quantized::gguf_file::Content) -> Vec<MetadataEntry> {
    content.metadata.iter().map(
        |(key, value)| MetadataEntry { key: key.clone(), value: plain_value(value) },
    ).collect()
}

/// Calls `quantized_llama::ModelWeights::from_gguf` for the CPU. It divides
/// by the head count that the file gives, which therefore must not be
/// zero, and multiplies the sizes of each tensor it reads, unchecked, so
/// the elements of every tensor must be such that they can be counted and
/// held. Whether it succeeds is a function of the header and the bytes.
/// The weights are made with the number of key/value heads that the file
/// gives, and each router with the outputs that the header gives its
/// tensor, for as many experts as the header counts. A failure comes back
/// as its message.
#[verifier::external_body]
fn llama_weights(content: candle_core::quantized::gguf_file::Content, bytes: &[u8]) -> (r: Result<
    candle_transformers::models::quantized_llama::ModelWeights,
    String,
>)
    requires
        heads_given(content, "llama.attention.head_count"@),
        extents_fit(content),
    ensures
        r is Ok <==> llama_loadable(content, bytes@),
        r matches Ok(w) ==> gguf_counts(content).dom().contains("llama.attention.head_count_kv"@)
            && llama_kv_heads(w) == gguf_counts(content)["llama.attention.head_count_kv"@],
        r matches Ok(w) ==> (routes_fit(content) ==> llama_routed(w)),
{
    candle_transformers::models::quantized_llama::ModelWeights::from_gguf(
        content,
        &mut std::io::Cursor::new(bytes),
        &candle_core::Device::Cpu,
    ).map_err(|e| e.to_string())
}

/// Calls `quantized_lfm2::ModelWeights::from_gguf` for the CPU. It divides
/// by the head count that the file gives, which therefore must not be
/// zero, and multiplies the sizes of each tensor it reads, unchecked, so
/// the elements of every tensor must be such that they can be counted and
/// held. Whether it succeeds is a function of the header and the bytes;
/// nothing is claimed of the weights, and a failure comes back as its
/// message.
#[verifier::external_body]
fn lfm2_weights(content: candle_core::quantized::gguf_file::Content, bytes: &[u8]) -> (r: Result<
    candle_transformers::models::quantized_lfm2::ModelWeights,
    String,
>)
    requires
        heads_given(content, "lfm2.attention.head_count"@),
        extents_fit(content),
    ensures
        r is Ok <==> lfm2_loadable(content, bytes@),
{
    candle_transformers::models::quantized_lfm2::ModelWeights::from_gguf(
        content,
        &mut std::io::Cursor::new(bytes),
        &candle_core::Device::Cpu,
    ).map_err(|e| e.to_string())
}

/// Makes a batch of one sequence out of `tokens` and calls
/// `quantized_llama::ModelWeights::forward` on it. It divides by the
/// number of key/value heads, which therefore must not be zero, reads the
/// last of the tokens, of which there must be one, and finds the experts
/// of a layer by the outputs of its router, of which there must not be
/// more than experts. The weights keep state from call to call, so nothing
/// is claimed of the logits; a failure comes back as its message.
#[verifier::external_body]
fn forward_llama(
    weights: &mut candle_transformers::models::quantized_llama::ModelWeights,
    tokens: &[u32],
    pos: usize,
) -> (r: Result<candle_core::Tensor, String>)
    requires
        tokens@.len() >= 1,
        llama_kv_heads(*old(weights)) > 0,
        llama_routed(*old(weights)),
    ensures
        llama_kv_heads(*final(weights)) == llama_kv_heads(*old(weights)),
        llama_routed(*final(weights)) == llama_routed(*old(weights)),
{
    let input = candle_core::Tensor::new(tokens, &candle_core::Device::Cpu).and_then(
        |t| t.unsqueeze(0),
    );
    input.and_then(|x| weights.forward(&x, pos)).map_err(|e| e.to_string())
}

/// Makes a batch of one sequence out of `tokens` and calls
/// `quantized_lfm2::ModelWeights::forward` on it, which reads the last of
/// the tokens, of which there must be one. The weights keep state from
/// call to call, so nothing is claimed of the logits; a failure comes back
/// as its message.
#[verifier::external_body]
fn forward_lfm2(
    weights: &mut candle_transformers::models::quantized_lfm2::ModelWeights,
    tokens: &[u32],
    pos: usize,
) -> Result<candle_core::Tensor, String>
    requires
        tokens@.len() >= 1,
{
    let input = candle_core::Tensor::new(tokens, &candle_core::Device::Cpu).and_then(
        |t| t.unsqueeze(0),
    );
    input.and_then(|x| weights.forward(&x, pos)).map_err(|e| e.to_string())
}

/// The weights of a model, by architecture.
pub enum ModelInner {
    Llama(candle_transformers::models::quantized_llama::ModelWeights),
    Lfm2(candle_transformers::models::quantized_lfm2::ModelWeights),
}

impl ModelInner {
    /// Weights of the LLaMA family have at least one key/value head, and
    /// no router with more outputs than experts.
    pub open spec fn sound(self) -> bool {
        self matches ModelInner::Llama(w) ==> llama_kv_heads(w) > 0 && llama_routed(w)
    }

    fn forward(&mut self, tokens: &[u32], pos: usize) -> (r: Result<candle_core::Tensor, String>)
        requires
            old(self).sound(),
            tokens@.len() >= 1,
        ensures
            final(self).sound(),
            (*final(self) is Lfm2) == (*old(self) is Lfm2),
    {
        match self {
            ModelInner::Llama(w) => forward_llama(w, tokens, pos),
            ModelInner::Lfm2(w) => forward_lfm2(w, tokens, pos),
        }
    }
}

pub struct Model {
    inner: ModelInner,
    metadata: GgufMetadata,
    entries: Vec<MetadataEntry>,
}

/// The bytes at the head of a mapping that are asked for ahead of time.
pub const PREFETCH_BYTES: usize = 134_217_728;

/// The most tokens a warm-up feeds.
pub const WARMUP_TOKENS: usize = 512;

/// The tokens a warm-up feeds at a time.
pub const WARMUP_STRIDE: usize = 64;

/// The number of tokens that a warm-up of `asked` tokens feeds.
pub open spec fn warmup_tokens(asked: nat) -> nat {
    if asked <= 512 {
        asked
    } else {
        512
    }
}

/// Whether a model of this architecture has weights of the LFM2 kind; all
/// others are taken for the LLaMA family.
pub open spec fn is_lfm2(architecture: Seq<char>) -> bool {
    architecture == "lfm2"@
}

/// What a header gives of its tensors, of the head counts of the weights
/// and of its routers is such that the weights can be made and run: the
/// elements of every tensor can be counted and held, no head count that is
/// given is zero, and the routers fit the experts.
pub open spec fn heads_fit(content: candle_core::quantized::gguf_file::Content, lfm2: bool) -> bool {
    &&& extents_fit(content)
    &&& if lfm2 {
        heads_given(content, "lfm2.attention.head_count"@)
    } else {
        &&& heads_given(content, "llama.attention.head_count"@)
        &&& heads_given(content, "llama.attention.head_count_kv"@)
        &&& routes_fit(content)
    }
}

/// Whether the elements of a tensor of extent `dims` can be counted and
/// held.
pub fn extent_fits(dims: &Vec<usize>) -> (fits: bool)
    ensures
        fits == counts_fit(dims@),
{
    let limit: usize = usize::MAX / 16;
    let mut count: usize = 1;
    let mut k: usize = 0;
    proof {
        assert(dims@.take(0) =~= Seq::<usize>::empty());
    }
    while k < dims.len()
        invariant
            k <= dims@.len(),
            limit == usize::MAX / 16,
            count == count_of(dims@.take(k as int)),
            forall|j: int| 0 <= j <= k ==> (#[trigger] count_of(dims@.take(j))) * 16 <= usize::MAX,
        decreases dims@.len() - k,
    {
        let size: usize = dims[k];
        proof {
            assert(dims@.take(k + 1).drop_last() =~= dims@.take(k as int));
            assert(dims@.take(k + 1).last() == size);
            assert(count_of(dims@.take(k + 1)) == count * size);
        }
        if size > 0 && count > limit / size {
            proof {
                assert(count * size > limit) by (nonlinear_arith)
                    requires
                        size > 0,
                        count > limit / size,
                ;
                assert(count_of(dims@.take(k + 1)) * 16 > usize::MAX);
            }
            return false;
        }
        proof {
            assert(count * size <= limit) by (nonlinear_arith)
                requires
                    size == 0 || count <= limit / size,
            ;
        }
        count = count * size;
        k += 1;
    }
    true
}

/// Whether the elements of each of the tensors of these extents can be
/// counted and held.
fn all_fit(extents: &Vec<Vec<usize>>) -> (fit: bool)
    ensures
        fit == forall|i: int| 0 <= i < extents@.len() ==> counts_fit((#[trigger] extents@[i])@),
{
    let mut i: usize = 0;
    while i < extents.len()
        invariant
            i <= extents@.len(),
            forall|j: int| 0 <= j < i ==> counts_fit((#[trigger] extents@[j])@),
        decreases extents@.len() - i,
    {
        if !extent_fits(&extents[i]) {
            return false;
        }
        i += 1;
    }
    true
}

/// Whether the backend makes the weights of the architecture out of this
/// header and these bytes.
pub open spec fn weights_load(
    content: candle_core::quantized::gguf_file::Content,
    bytes: Seq<u8>,
    lfm2: bool,
) -> bool {
    if lfm2 {
        lfm2_loadable(content, bytes)
    } else {
        llama_loadable(content, bytes)
    }
}

/// One stride of a warm-up: where its tokens stand, and how many they are.
pub struct Stride {
    pub position: usize,
    pub len: usize,
}

/// The number of strides in a warm-up of `asked` tokens: the tokens fed,
/// divided by 64 and rounded up.
pub open spec fn stride_count(asked: nat) -> nat {
    (warmup_tokens(asked) + 63) / 64
}

/// Stride `k` of a warm-up of `asked` tokens: it stands at position `64 k`
/// and has 64 tokens, or what is left of the warm-up where that is less.
pub open spec fn stride_at(asked: nat, k: nat) -> Stride {
    Stride {
        position: (64 * k) as usize,
        len: if warmup_tokens(asked) - 64 * k <= 64 {
            (warmup_tokens(asked) - 64 * k) as usize
        } else {
            64
        },
    }
}

/// The strides of a warm-up of `num_warmup_tokens` tokens, in order.
pub fn warmup_strides(num_warmup_tokens: usize) -> (strides: Vec<Stride>)
    ensures
        strides@.len() == stride_count(num_warmup_tokens as nat),
        forall|k: int|
            0 <= k < strides@.len() ==> #[trigger] strides@[k] == stride_at(
                num_warmup_tokens as nat,
                k as nat,
            ),
        forall|k: int| 0 <= k < strides@.len() ==> 1 <= (#[trigger] strides@[k]).len <= 64,
{
    let total: usize = if num_warmup_tokens <= WARMUP_TOKENS {
        num_warmup_tokens
    } else {
        WARMUP_TOKENS
    };
    let mut strides: Vec<Stride> = Vec::new();
    let mut i: usize = 0;
    while i < total
        invariant
            total == warmup_tokens(num_warmup_tokens as nat),
            total <= 512,
            i <= total,
            i == 64 * strides@.len() || (i == total && 64 * (strides@.len() - 1) < total < 64
                * strides@.len()),
            forall|k: int|
                0 <= k < strides@.len() ==> #[trigger] strides@[k] == stride_at(
                    num_warmup_tokens as nat,
                    k as nat,
                ),
            forall|k: int| 0 <= k < strides@.len() ==> 1 <= (#[trigger] strides@[k]).len <= 64,
            i < total ==> strides@.len() < stride_count(num_warmup_tokens as nat),
            i == total ==> strides@.len() == stride_count(num_warmup_tokens as nat),
        decreases total - i,
    {
        let len: usize = if total - i <= WARMUP_STRIDE {
            total - i
        } else {
            WARMUP_STRIDE
        };
        strides.push(Stride { position: i, len });
        i += len;
    }
    strides
}

impl Model {
    /// The weights can be run: see `ModelInner::sound`.
    pub closed spec fn spec_sound(&self) -> bool {
        self.inner.sound()
    }

    pub closed spec fn spec_metadata(&self) -> GgufMetadata {
        self.metadata
    }

    pub closed spec fn spec_entries(&self) -> Seq<MetadataEntry> {
        self.entries@
    }

    /// The weights are of the LFM2 kind.
    pub closed spec fn spec_is_lfm2(&self) -> bool {
        self.inner is Lfm2
    }

    /// The description is sound, the weights are of the kind that the
    /// architecture asks for, and they can be run.
    pub open spec fn wf(&self) -> bool {
        &&& self.spec_metadata().wf()
        &&& self.spec_is_lfm2() == is_lfm2(self.spec_metadata().architecture@)
        &&& self.spec_sound()
    }

    /// Loads a model from the bytes of its file. `filename` stands in for a
    /// missing name; `file_size` is recorded as given.
    ///
    /// The file must parse as GGUF and must not be such that it could give
    /// an alignment of zero: `Io` comes for bytes that fail in either, and
    /// for no others. What becomes of a header that was read is as
    /// `from_content` says of it and of the entries of its key/value
    /// section, in the order in which the backend hands them out.
    pub fn load(bytes: &[u8], filename: &str, file_size: u64) -> (r: Result<Self, LoadError>)
        ensures
            r matches Ok(m) ==> {
                &&& m.wf()
                &&& first_fault(m.spec_entries()) is None
                &&& describes(m.spec_metadata(), m.spec_entries(), filename@, file_size)
            },
            (r matches Err(LoadError::Io(_))) <==> may_align_to_zero(bytes@) || !gguf_readable(
                bytes@,
            ),
            !(r matches Err(LoadError::Io(_))) ==> exists|
                content: candle_core::quantized::gguf_file::Content,
                entries: Seq<MetadataEntry>,
            | #[trigger]
                Self::made_of(content, entries, bytes@, filename@, file_size, r),
    {
        if gives_zero_alignment(bytes) {
            return Err(
                LoadError::Io(String::from_str("The file could give an alignment of zero")),
            );
        }
        let content = match read_content(bytes) {
            Ok(c) => c,
            Err(why) => {
                return Err(LoadError::Io(why));
            },
        };
        let entries = content_entries(&content);
        Self::from_content(content, entries, bytes, filename, file_size)
    }

    /// Whether no router among the first `layers` layers has more outputs
    /// than there are experts.
    fn routers_fit(
        content: &candle_core::quantized::gguf_file::Content,
        layers: usize,
        experts: usize,
    ) -> (fit: bool)
        ensures
            fit == forall|layer: nat|
                layer < layers ==> (#[trigger] gguf_gate_rows(*content, layer) matches Some(rows)
                    ==> rows <= experts),
    {
        let mut layer: usize = 0;
        while layer < layers
            invariant
                layer <= layers,
                forall|l: nat|
                    l < layer ==> (#[trigger] gguf_gate_rows(*content, l) matches Some(rows)
                        ==> rows <= experts),
            decreases layers - layer,
        {
            match gate_rows(content, layer) {
                Some(rows) => {
                    if rows > experts {
                        assert(gguf_gate_rows(*content, layer as nat) == Some(rows));
                        return false;
                    }
                },
                None => {},
            }
            layer += 1;
        }
        true
    }

    /// The count that the header gives under `key`, and zero where it
    /// gives none.
    fn count_of(content: &candle_core::quantized::gguf_file::Content, key: &str) -> (n: usize)
        ensures
            n == count_or_zero(*content, key@),
    {
        match count_under(content, key) {
            Some(n) => n as usize,
            None => 0,
        }
    }

    /// Whether the tensors, the head counts and the routers that the header
    /// gives are such that the weights can be made and run.
    fn fits(content: &candle_core::quantized::gguf_file::Content, lfm2: bool) -> (fit: bool)
        ensures
            fit == heads_fit(*content, lfm2),
    {
        let extents = tensor_extents(content);
        if !all_fit(&extents) {
            proof {
                let i = choose|i: int|
                    0 <= i < extents@.len() && !counts_fit((#[trigger] extents@[i])@);
                assert(gguf_extents(*content).contains(extents@[i]@));
            }
            return false;
        }
        assert(extents_fit(*content));
        if lfm2 {
            match count_under(content, "lfm2.attention.head_count") {
                Some(0) => false,
                _ => true,
            }
        } else {
            match count_under(content, "llama.attention.head_count") {
                Some(0) => {
                    return false;
                },
                _ => {},
            }
            match count_under(content, "llama.attention.head_count_kv") {
                Some(0) => {
                    return false;
                },
                _ => {},
            }
            let experts = Self::count_of(content, "llama.expert_count");
            if experts > 1 {
                Self::routers_fit(content, Self::count_of(content, "llama.block_count"), experts)
            } else {
                true
            }
        }
    }

    /// `r` is what becomes of a header that the backend has read, the
    /// entries of its key/value section and the bytes it was read from:
    /// the fault of the entries where they give no description; else no
    /// architecture where the head counts and routers do not fit or the
    /// weights do not load; else a model with the description that the
    /// entries give.
    pub open spec fn made_of(
        content: candle_core::quantized::gguf_file::Content,
        entries: Seq<MetadataEntry>,
        bytes: Seq<u8>,
        filename: Seq<char>,
        file_size: u64,
        r: Result<Self, LoadError>,
    ) -> bool {
        match first_fault(entries) {
            Some((key, fault)) => r matches Err(e) && reports(e, key, fault),
            None => {
                let lfm2 = is_lfm2(architecture_of(entries));
                match r {
                    Ok(m) => {
                        &&& heads_fit(content, lfm2)
                        &&& weights_load(content, bytes, lfm2)
                        &&& m.wf()
                        &&& m.spec_entries() == entries
                        &&& describes(m.spec_metadata(), entries, filename, file_size)
                    },
                    Err(e) => {
                        &&& !(heads_fit(content, lfm2) && weights_load(content, bytes, lfm2))
                        &&& e matches LoadError::ArchitectureUnsupported(name)
                        &&& name@ == architecture_of(entries)
                    },
                }
            },
        }
    }

    /// Makes a model of a header that the backend has read, the entries of
    /// its key/value section, and the bytes it was read from.
    ///
    /// Where the entries do not give a description, the error is the one
    /// that `extract_metadata` gives. Where a tensor has more elements than
    /// can be counted and held, a head count that the header gives is
    /// zero, or a router has more outputs than there are experts, the
    /// architecture counts as unsupported, and so it does where the
    /// backend does not make the weights. In every other case there is a
    /// model, with the description that the entries give.
    pub fn from_content(
        content: candle_core::quantized::gguf_file::Content,
        entries: Vec<MetadataEntry>,
        bytes: &[u8],
        filename: &str,
        file_size: u64,
    ) -> (r: Result<Self, LoadError>)
        ensures
            Self::made_of(content, entries@, bytes@, filename@, file_size, r),
    {
        let metadata = match extract_metadata(&entries, filename, file_size) {
            Ok(m) => m,
            Err(e) => {
                return Err(e);
            },
        };
        let lfm2 = same_text(metadata.architecture.as_str(), "lfm2");
        if !Self::fits(&content, lfm2) {
            return Err(LoadError::ArchitectureUnsupported(metadata.architecture.clone()));
        }
        let inner = if lfm2 {
            match lfm2_weights(content, bytes) {
                Ok(w) => ModelInner::Lfm2(w),
                Err(_) => {
                    return Err(LoadError::ArchitectureUnsupported(metadata.architecture.clone()));
                },
            }
        } else {
            match llama_weights(content, bytes) {
                Ok(w) => ModelInner::Llama(w),
                Err(_) => {
                    return Err(LoadError::ArchitectureUnsupported(metadata.architecture.clone()));
                },
            }
        };
        Ok(Model { inner, metadata, entries })
    }

    /// How much of a mapping of `mapped_len` bytes is asked for ahead of
    /// time: the first 128 MiB, or all of it where it is shorter.
    pub fn prefetch_len(mapped_len: usize) -> (len: usize)
        ensures
            len == if mapped_len <= PREFETCH_BYTES {
                mapped_len
            } else {
                PREFETCH_BYTES
            },
    {
        if mapped_len <= PREFETCH_BYTES {
            mapped_len
        } else {
            PREFETCH_BYTES
        }
    }

    pub fn metadata(&self) -> (m: &GgufMetadata)
        ensures
            *m == self.spec_metadata(),
    {
        &self.metadata
    }

    /// The key/value section that the description was read from.
    pub fn entries(&self) -> (entries: &Vec<MetadataEntry>)
        ensures
            entries@ == self.spec_entries(),
    {
        &self.entries
    }

    /// The input fits the model: there is at least one token, and the last
    /// of them stands within the context.
    pub open spec fn accepts(&self, tokens: nat, pos: nat) -> bool {
        tokens >= 1 && pos + tokens <= self.spec_metadata().context_length
    }

    /// Why input is turned down before the backend sees it: there is no
    /// token, or the last of the tokens would stand outside the context.
    pub open spec fn refusal(&self, tokens: nat, pos: nat) -> Option<Seq<char>> {
        if tokens == 0 {
            Some("Forward needs at least one token"@)
        } else if pos + tokens > self.spec_metadata().context_length {
            Some("Forward would leave the context"@)
        } else {
            None
        }
    }

    /// The extent of the logits of one sequence: one row, as wide as the
    /// vocabulary.
    pub open spec fn logits_extent(&self) -> Seq<usize> {
        seq![1usize, self.spec_metadata().vocab_size]
    }

    /// Feeds `tokens`, the first of which stands at position `pos`, and
    /// hands back the logits for what follows the last of them: one row, as
    /// wide as the vocabulary. Input that does not fit the model is turned
    /// down before the backend sees it, with the reason, and so are logits
    /// of another extent; what becomes of input that fits is otherwise up
    /// to the backend.
    pub fn forward(&mut self, tokens: &[u32], pos: usize) -> (r: Result<candle_core::Tensor, String>)
        requires
            old(self).wf(),
        ensures
            final(self).wf(),
            final(self).spec_metadata() == old(self).spec_metadata(),
            final(self).spec_entries() == old(self).spec_entries(),
            final(self).spec_is_lfm2() == old(self).spec_is_lfm2(),
            !old(self).accepts(tokens@.len(), pos as nat) ==> r is Err,
            old(self).refusal(tokens@.len(), pos as nat) matches Some(why) ==> (r matches Err(e)
                && e@ == why),
            r matches Ok(logits) ==> tensor_dims(logits) == old(self).logits_extent(),
    {
        let limit = self.metadata.context_length;
        let len = tokens.len();
        if len == 0 {
            return Err(String::from_str("Forward needs at least one token"));
        }
        if len > limit || pos > limit - len {
            return Err(String::from_str("Forward would leave the context"));
        }
        let logits = match self.inner.forward(tokens, pos) {
            Ok(t) => t,
            Err(why) => {
                return Err(why);
            },
        };
        let extent = extent_of(&logits);
        if extent.len() == 2 && extent[0] == 1 && extent[1] == self.metadata.vocab_size {
            assert(tensor_dims(logits) =~= self.logits_extent());
            Ok(logits)
        } else {
            Err(String::from_str("The logits are not one row as wide as the vocabulary"))
        }
    }

    /// Runs the model over up to 512 zero tokens, 64 at a time, as
    /// `warmup_strides` lays them out, so that what the backend sets up on
    /// first use is set up before the first prompt. The first failure ends
    /// the warm-up and is handed back. A warm-up of no token succeeds; one
    /// that is longer than the context fails, since its last tokens are
    /// turned down.
    pub fn warmup(&mut self, num_warmup_tokens: usize) -> (r: Result<(), String>)
        requires
            old(self).wf(),
        ensures
            final(self).wf(),
            final(self).spec_metadata() == old(self).spec_metadata(),
            final(self).spec_entries() == old(self).spec_entries(),
            final(self).spec_is_lfm2() == old(self).spec_is_lfm2(),
            num_warmup_tokens == 0 ==> r is Ok,
            warmup_tokens(num_warmup_tokens as nat) > old(self).spec_metadata().context_length
                ==> r is Err,
    {
        let strides = warmup_strides(num_warmup_tokens);
        let mut zeros: Vec<u32> = Vec::new();
        let mut filled: usize = 0;
        while filled < WARMUP_STRIDE
            invariant
                filled <= WARMUP_STRIDE,
                zeros@.len() == filled,
            decreases WARMUP_STRIDE - filled,
        {
            zeros.push(0);
            filled += 1;
        }
        let mut k: usize = 0;
        while k < strides.len()
            invariant
                k <= strides@.len(),
                strides@.len() == stride_count(num_warmup_tokens as nat),
                forall|j: int|
                    0 <= j < strides@.len() ==> #[trigger] strides@[j] == stride_at(
                        num_warmup_tokens as nat,
                        j as nat,
                    ),
                forall|j: int| 0 <= j < strides@.len() ==> 1 <= (#[trigger] strides@[j]).len <= 64,
                k > 0 ==> strides@[k - 1].position + strides@[k - 1].len
                    <= self.spec_metadata().context_length,
                zeros@.len() == WARMUP_STRIDE,
                self.wf(),
                self.spec_metadata() == old(self).spec_metadata(),
                self.spec_entries() == old(self).spec_entries(),
                self.spec_is_lfm2() == old(self).spec_is_lfm2(),
            decreases strides@.len() - k,
        {
            let stride = &strides[k];
            let batch = zeros.as_slice().split_at(stride.len).0;
            match self.forward(batch, stride.position) {
                Ok(_) => {},
                Err(why) => {
                    return Err(why);
                },
            }
            k += 1;
        }
        proof {
            if k > 0 {
                assert(strides@[k - 1] == stride_at(num_warmup_tokens as nat, (k - 1) as nat));
            }
        }
        Ok(())
    }
}

} // verus!
