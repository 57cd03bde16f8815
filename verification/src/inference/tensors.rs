//! The tensor backend as the library sees it: opaque tensors, their extent
//! along the position axis, and the few operations the cache needs.
//!
//! Everything here is taken on trust from `candle_core`; nothing is known of
//! the numbers that a tensor holds.

use vstd::prelude::*;

verus! {

/// A tensor of the backend. Nothing of what it holds is known here.
#[verifier::external_type_specification]
#[verifier::external_body]
pub struct ExTensor(candle_core::Tensor);

/// An error of the backend. It is only ever turned into its message.
#[verifier::external_type_specification]
#[verifier::external_body]
pub struct ExBackendError(candle_core::Error);

/// The size of a tensor along each of its axes, as `Tensor::dims` gives it.
pub uninterp spec fn tensor_dims(t: candle_core::Tensor) -> Seq<usize>;

/// The kind of a tensor: the kind of number it holds together with the
/// place of its device. Two tensors are of one kind exactly where
/// `Tensor::dtype` is the same for both and `Device::location` is; the kind
/// of four-byte floats on the CPU is 0.
pub uninterp spec fn tensor_kind(t: candle_core::Tensor) -> nat;

/// The number of sequence positions a key or value tensor covers: its size
/// along axis 2, and one where it has no such axis.
pub open spec fn positions_of(t: candle_core::Tensor) -> nat {
    if tensor_dims(t).len() > 2 {
        tensor_dims(t)[2] as nat
    } else {
        1
    }
}

/// Calls `Tensor::dim` for axis 2, which fails exactly when the tensor has
/// fewer than three axes.
#[verifier::external_body]
pub(crate) fn axis_len(t: &candle_core::Tensor) -> (n: Option<usize>)
    ensures
        match n {
            Some(n) => tensor_dims(*t).len() > 2 && n == tensor_dims(*t)[2],
            None => tensor_dims(*t).len() <= 2,
        },
{
    t.dim(2).ok()
}

/// Calls `Tensor::dims` and copies what it gives.
#[verifier::external_body]
pub(crate) fn extent_of(t: &candle_core::Tensor) -> (dims: Vec<usize>)
    ensures
        dims@ == tensor_dims(*t),
{
    t.dims().to_vec()
}

/// The number of sequence positions that `t` covers.
pub(crate) fn positions_in(t: &candle_core::Tensor) -> (n: usize)
    ensures
        n == positions_of(*t),
{
    match axis_len(t) {
        Some(n) => n,
        None => 1,
    }
}

/// Calls `Tensor::zeros` for one page of four-byte floats on the CPU.
/// The page must not have more bytes than can be addressed. For such
/// numbers on the CPU `zeros` has no failing branch: it makes the storage
/// and hands back a tensor of the extent and the kind asked for.
#[verifier::external_body]
pub(crate) fn zero_page(num_heads: usize, page_size: usize, head_dim: usize) -> (r: Result<
    candle_core::Tensor,
    candle_core::Error,
>)
    requires
        num_heads * page_size * head_dim * 4 <= isize::MAX,
    ensures
        match r {
            Ok(t) => tensor_dims(t) == seq![1usize, num_heads, page_size, head_dim] && tensor_kind(
                t,
            ) == 0,
            Err(_) => false,
        },
{
    candle_core::Tensor::zeros(
        (1, num_heads, page_size, head_dim),
        candle_core::DType::F32,
        &candle_core::Device::Cpu,
    )
}

/// Calls `Tensor::clone`, which shares the storage. Nothing is claimed of
/// the copy.
#[verifier::external_body]
pub(crate) fn share(t: &candle_core::Tensor) -> candle_core::Tensor {
    t.clone()
}

/// Calls `Tensor::narrow` on the position axis. It succeeds exactly on a
/// tensor that has that axis and holds the span; what comes back is of the
/// kind of the tensor and has its extent but for the length of the span.
/// `narrow` adds start and length, so their sum must fit a machine word.
#[verifier::external_body]
pub(crate) fn span_of(t: &candle_core::Tensor, start: usize, len: usize) -> (r: Result<
    candle_core::Tensor,
    candle_core::Error,
>)
    requires
        start + len <= usize::MAX,
    ensures
        match r {
            Ok(span) => tensor_dims(*t).len() > 2 && start + len <= tensor_dims(*t)[2]
                && tensor_dims(span) == tensor_dims(*t).update(2, len) && tensor_kind(span)
                == tensor_kind(*t),
            Err(_) => !(tensor_dims(*t).len() > 2 && start + len <= tensor_dims(*t)[2]),
        },
{
    t.narrow(2, start, len)
}

/// `src` lies within `page` when it is put there at `offset` along the
/// position axis: both have that axis, `src` ends within `page` along it,
/// and along every other axis they are of one size.
pub open spec fn lies_within(page: Seq<usize>, src: Seq<usize>, offset: nat) -> bool {
    &&& src.len() > 2
    &&& page.len() == src.len()
    &&& offset + src[2] <= page[2]
    &&& forall|i: int| 0 <= i < src.len() && i != 2 ==> page[i] == src[i]
}

/// A tensor of extent `src` holds `len` positions from `start` on, and
/// that span lies within a tensor of extent `page` at `offset`.
pub open spec fn span_fits(page: Seq<usize>, src: Seq<usize>, start: nat, len: nat, offset: nat) -> bool {
    &&& src.len() > 2
    &&& start + len <= src[2]
    &&& len <= usize::MAX
    &&& lies_within(page, src.update(2, len as usize), offset)
}

/// Whether the backend copies a span of `src` into `page`: whether
/// `Tensor::narrow` takes `len` positions of `src` from `start` on,
/// `Tensor::contiguous` packs them, and `Tensor::slice_set` puts them into
/// `page` at `offset`.
pub uninterp spec fn span_copies(
    page: candle_core::Tensor,
    src: candle_core::Tensor,
    start: usize,
    len: usize,
    offset: usize,
) -> bool;

/// Calls `Tensor::narrow` on the position axis of `src`, `Tensor::contiguous`
/// on the span, and `Tensor::slice_set` to copy it into `page` along the
/// position axis from `offset` on. `narrow` adds start and length, and
/// `slice_set` offset and length, so both sums must fit a machine word.
/// Whether the copy is made depends on the two tensors and the three
/// numbers alone: on extents, kinds of number and storage, none of which
/// a copy changes. It is made only where `src` holds the span and the span
/// lies within `page`.
#[verifier::external_body]
pub(crate) fn put_span(
    page: &candle_core::Tensor,
    src: &candle_core::Tensor,
    start: usize,
    len: usize,
    offset: usize,
) -> (r: Result<(), candle_core::Error>)
    requires
        start + len <= usize::MAX,
        offset + len <= usize::MAX,
    ensures
        r is Ok <==> span_copies(*page, *src, start, len, offset),
        r is Ok ==> span_fits(
            tensor_dims(*page),
            tensor_dims(*src),
            start as nat,
            len as nat,
            offset as nat,
        ),
{
    src.narrow(2, start, len).and_then(|span| span.contiguous()).and_then(
        |span| page.slice_set(&span, 2, offset),
    )
}

/// The backend copies `len` positions of `src`, from `start` on, into
/// `page` at `offset`: the numbers fit a machine word, and the backend
/// makes the copy.
pub open spec fn copies(
    page: candle_core::Tensor,
    src: candle_core::Tensor,
    start: nat,
    len: nat,
    offset: nat,
) -> bool {
    &&& start + len <= usize::MAX
    &&& offset + len <= usize::MAX
    &&& span_copies(page, src, start as usize, len as usize, offset as usize)
}

/// Copies `len` positions of `src`, from `src_start` on, into `page` at
/// `page_offset`. The copy is made exactly where the backend makes it, and
/// then `src` holds the span and the span lies within `page`; a failure
/// comes back as its message.
pub(crate) fn copy_span(
    page: &candle_core::Tensor,
    src: &candle_core::Tensor,
    src_start: usize,
    len: usize,
    page_offset: usize,
) -> (r: Result<(), String>)
    ensures
        r is Ok <==> copies(*page, *src, src_start as nat, len as nat, page_offset as nat),
        r is Ok ==> span_fits(
            tensor_dims(*page),
            tensor_dims(*src),
            src_start as nat,
            len as nat,
            page_offset as nat,
        ),
{
    if len > usize::MAX - src_start || len > usize::MAX - page_offset {
        return Err(String::from_str("The span to copy does not fit a machine word"));
    }
    match put_span(page, src, src_start, len, page_offset) {
        Ok(()) => Ok(()),
        Err(e) => Err(describe(&e)),
    }
}

/// `t` can stand beside `first` along the position axis: both have that
/// axis, they are of one kind, and along every other axis of one size.
pub open spec fn fits_beside(t: candle_core::Tensor, first: candle_core::Tensor) -> bool {
    &&& tensor_dims(t).len() > 2
    &&& tensor_dims(t).len() == tensor_dims(first).len()
    &&& forall|axis: int|
        0 <= axis < tensor_dims(t).len() && axis != 2 ==> tensor_dims(t)[axis] == tensor_dims(
            first,
        )[axis]
    &&& tensor_kind(t) == tensor_kind(first)
}

/// `parts` can be joined along the position axis: there is one of them, or
/// there are several and each can stand beside the first.
pub open spec fn joinable(parts: Seq<candle_core::Tensor>) -> bool {
    parts.len() == 1 || (parts.len() > 1 && forall|i: int|
        0 <= i < parts.len() ==> fits_beside(#[trigger] parts[i], parts[0]))
}

/// Calls `Tensor::cat` along the position axis. It hands back a single
/// tensor as it is; several it joins exactly where each has that axis and
/// they agree in kind and in every other size; none it turns down. Nothing
/// is claimed of the result.
#[verifier::external_body]
pub(crate) fn join_spans(parts: &Vec<candle_core::Tensor>) -> (r: Result<
    candle_core::Tensor,
    candle_core::Error,
>)
    ensures
        r is Ok <==> joinable(parts@),
{
    candle_core::Tensor::cat(parts.as_slice(), 2)
}

/// Calls the error's `Display` impl. Nothing is claimed of the text.
#[verifier::external_body]
pub(crate) fn describe(error: &candle_core::Error) -> String {
    error.to_string()
}

} // verus!
