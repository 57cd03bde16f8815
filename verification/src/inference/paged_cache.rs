//! Key/value cache held in pages of a fixed number of positions.
//!
//! Pages come into being when a position in them is first written. The cache
//! keeps count of what each page holds; the numbers themselves live in
//! tensors of the backend.

use vstd::prelude::*;
use std::collections::HashMap;
use crate::inference::tensors::{
    copies, copy_span, describe, fits_beside, join_spans, joinable, positions_in, positions_of,
    share, span_of, tensor_dims, tensor_kind, zero_page,
};

verus! {

/// Positions per page.
pub const DEFAULT_PAGE_SIZE: usize = 16;

/// The number of pages that `positions` positions occupy.
pub open spec fn pages_for(positions: nat) -> nat {
    (positions + 15) / 16
}

/// The number of positions that page `page` holds when the first `len`
/// positions of the cache are filled.
pub open spec fn fill_of(page: nat, len: nat) -> nat {
    if len <= page * 16 {
        0
    } else if len - page * 16 >= 16 {
        16
    } else {
        (len - page * 16) as nat
    }
}

/// Whether appending `n` positions to a cache that holds `len` writes to
/// page `page`.
pub open spec fn touched(page: nat, len: nat, n: nat) -> bool {
    n > 0 && len / 16 <= page && page * 16 < len + n
}

/// Where in page `page` an append to a cache that holds `len` positions
/// begins to write: behind what the page holds already.
pub open spec fn span_offset(page: nat, len: nat) -> nat {
    if page * 16 < len {
        (len - page * 16) as nat
    } else {
        0
    }
}

/// Which of the positions appended to a cache that holds `len` positions
/// is the first to go to page `page`.
pub open spec fn span_source(page: nat, len: nat) -> nat {
    if page * 16 > len {
        (page * 16 - len) as nat
    } else {
        0
    }
}

/// How many of the `n` positions appended to a cache that holds `len`
/// positions go to page `page`, which they reach.
pub open spec fn span_len(page: nat, len: nat, n: nat) -> nat {
    if len + n - page * 16 >= 16 {
        (16 - span_offset(page, len)) as nat
    } else {
        (len + n - page * 16 - span_offset(page, len)) as nat
    }
}

/// The number of positions of a tensor of `offered` positions that go to a
/// page from `offset` on: all of them, or as many as the page has room
/// for.
pub open spec fn taken(offered: nat, offset: nat) -> nat {
    if offered <= 16 - offset {
        offered
    } else {
        (16 - offset) as nat
    }
}

/// The keys and the values of `page` are tensors of four-byte floats on
/// the CPU, of the extent `extent`.
pub open spec fn page_like(page: KvPage, extent: Seq<usize>) -> bool {
    &&& tensor_dims(page.k) == extent
    &&& tensor_dims(page.v) == extent
    &&& tensor_kind(page.k) == 0
    &&& tensor_kind(page.v) == 0
}

/// The keys and the values of one page.
pub struct KvPage {
    pub k: candle_core::Tensor,
    pub v: candle_core::Tensor,
}

/// Why the cache could not take what it was given.
#[derive(Debug)]
pub enum CacheError {
    /// The positions offered do not fit in what is left of the cache.
    Full,
    /// The tensor backend failed; its message is kept.
    Backend(String),
}

pub struct PagedKvCache {
    page_size: usize,
    max_pages: usize,
    num_heads: usize,
    head_dim: usize,
    pages: Vec<Option<KvPage>>,
    page_usage: HashMap<usize, usize>,
    current_seq_len: usize,
}

/// The number of positions that `usage` records for page `i`: none where
/// it records nothing.
pub open spec fn recorded(usage: Map<usize, usize>, i: int) -> nat {
    if usage.contains_key(i as usize) {
        usage[i as usize] as nat
    } else {
        0
    }
}

/// How many of the first `upto` entries of `pages` are present.
pub open spec fn present_count(pages: Seq<bool>, upto: nat) -> nat
    decreases upto,
{
    if upto == 0 {
        0
    } else {
        present_count(pages, (upto - 1) as nat) + if pages[upto - 1] {
            1nat
        } else {
            0nat
        }
    }
}

impl PagedKvCache {
    pub closed spec fn spec_page_size(&self) -> nat {
        self.page_size as nat
    }

    pub closed spec fn spec_num_pages(&self) -> nat {
        self.max_pages as nat
    }

    pub closed spec fn spec_num_heads(&self) -> nat {
        self.num_heads as nat
    }

    pub closed spec fn spec_head_dim(&self) -> nat {
        self.head_dim as nat
    }

    pub closed spec fn spec_current_seq_len(&self) -> nat {
        self.current_seq_len as nat
    }

    /// The positions the cache has room for.
    pub open spec fn spec_max_seq_len(&self) -> nat {
        self.spec_num_pages() * 16
    }

    /// For each page, whether it has been allocated.
    pub closed spec fn allocated(&self) -> Seq<bool> {
        Seq::new(self.pages@.len(), |i: int| self.pages@[i] is Some)
    }

    /// The page at `i`, where it has been allocated.
    pub closed spec fn spec_page(&self, i: int) -> Option<KvPage> {
        if 0 <= i < self.pages@.len() {
            self.pages@[i]
        } else {
            None
        }
    }

    /// For each page, the number of positions written to it.
    pub closed spec fn usage(&self) -> Seq<nat> {
        Seq::new(self.max_pages as nat, |i: int| recorded(self.page_usage@, i))
    }

    /// The number of allocated pages.
    pub open spec fn spec_allocated_pages(&self) -> nat {
        present_count(self.allocated(), self.allocated().len())
    }

    /// What holds of every cache: a page has sixteen positions and can be
    /// addressed, usage is recorded for pages of the cache only, no page
    /// holds more than sixteen positions, a page that is absent holds
    /// nothing, a page that is there has the extent and the kind of a
    /// page, and the length does not exceed the room.
    pub closed spec fn wf(&self) -> bool {
        &&& self.page_size == DEFAULT_PAGE_SIZE
        &&& self.pages@.len() == self.max_pages
        &&& forall|key: usize| #[trigger] self.page_usage@.contains_key(key) ==> key < self.max_pages
        &&& self.max_pages * 16 <= usize::MAX
        &&& self.num_heads * self.head_dim * 64 <= isize::MAX
        &&& self.current_seq_len <= self.max_pages * 16
        &&& forall|i: int|
            0 <= i < self.max_pages ==> #[trigger] recorded(self.page_usage@, i) <= 16 && (
            self.pages@[i] is None ==> recorded(self.page_usage@, i) == 0)
        &&& forall|i: int|
            0 <= i < self.max_pages ==> ((#[trigger] self.pages@[i]) matches Some(page)
                ==> page_like(page, self.page_extent()))
    }

    /// The cache holds exactly what appending left in it: the pages that
    /// the first `current_seq_len` positions reach are allocated and filled
    /// in order, and no other page is.
    pub closed spec fn dense(&self) -> bool {
        forall|i: int|
            0 <= i < self.max_pages ==> (#[trigger] self.pages@[i] is Some <==> i * 16
                < self.current_seq_len) && recorded(self.page_usage@, i) == fill_of(
                i as nat,
                self.current_seq_len as nat,
            )
    }

    /// An empty cache with room for at least `max_seq_len` positions.
    pub fn new(num_heads: usize, head_dim: usize, max_seq_len: usize) -> (cache: Self)
        requires
            max_seq_len <= usize::MAX - 15,
            num_heads * head_dim * 64 <= isize::MAX,
        ensures
            cache.wf(),
            cache.dense(),
            cache.spec_page_size() == 16,
            cache.spec_num_pages() == pages_for(max_seq_len as nat),
            cache.spec_num_heads() == num_heads,
            cache.spec_head_dim() == head_dim,
            cache.spec_current_seq_len() == 0,
            cache.spec_allocated_pages() == 0,
            forall|i: int|
                0 <= i < pages_for(max_seq_len as nat) ==> !(#[trigger] cache.allocated()[i])
                    && cache.usage()[i] == 0,
    {
        let page_size: usize = DEFAULT_PAGE_SIZE;
        let max_pages: usize = (max_seq_len + (page_size - 1)) / page_size;
        let mut pages: Vec<Option<KvPage>> = Vec::new();
        let page_usage: HashMap<usize, usize> = HashMap::new();
        let mut i: usize = 0;
        while i < max_pages
            invariant
                i <= max_pages,
                pages@.len() == i,
                forall|j: int| 0 <= j < i ==> #[trigger] pages@[j] is None,
            decreases max_pages - i,
        {
            pages.push(None);
            i += 1;
        }
        let cache = PagedKvCache {
            page_size,
            max_pages,
            num_heads,
            head_dim,
            pages,
            page_usage,
            current_seq_len: 0,
        };
        proof {
            lemma_none_present(cache.allocated(), cache.allocated().len());
        }
        cache
    }

    pub fn current_seq_len(&self) -> (len: usize)
        ensures
            len == self.spec_current_seq_len(),
    {
        self.current_seq_len
    }

    pub fn max_seq_len(&self) -> (len: usize)
        requires
            self.wf(),
        ensures
            len == self.spec_max_seq_len(),
    {
        self.max_pages * self.page_size
    }

    pub fn num_pages(&self) -> (n: usize)
        ensures
            n == self.spec_num_pages(),
    {
        self.max_pages
    }

    pub fn page_size(&self) -> (n: usize)
        ensures
            n == self.spec_page_size(),
    {
        self.page_size
    }

    /// The number of pages allocated so far.
    pub fn allocated_pages(&self) -> (n: usize)
        requires
            self.wf(),
        ensures
            n == self.spec_allocated_pages(),
    {
        let mut n: usize = 0;
        let mut i: usize = 0;
        while i < self.pages.len()
            invariant
                i <= self.pages@.len(),
                n <= i,
                n == present_count(self.allocated(), i as nat),
                self.allocated().len() == self.pages@.len(),
                forall|j: int| 0 <= j < self.pages@.len() ==> self.allocated()[j] == (
                self.pages@[j] is Some),
            decreases self.pages@.len() - i,
        {
            if self.pages[i].is_some() {
                n += 1;
            }
            i += 1;
        }
        n
    }

    /// The number of positions written to page `page_idx`; none where the
    /// cache has no such page.
    pub fn page_used(&self, page_idx: usize) -> (n: usize)
        requires
            self.wf(),
        ensures
            page_idx < self.spec_num_pages() ==> n == self.usage()[page_idx as int],
            page_idx >= self.spec_num_pages() ==> n == 0,
    {
        match self.page_usage.get(&page_idx) {
            Some(n) => *n,
            None => 0,
        }
    }

    /// The page at `page_idx`, where it has been allocated.
    pub fn get_page(&self, page_idx: usize) -> (page: Option<&KvPage>)
        requires
            self.wf(),
        ensures
            page is Some <==> page_idx < self.spec_num_pages() && self.allocated()[page_idx as int],
            match page {
                Some(p) => self.spec_page(page_idx as int) == Some(*p),
                None => self.spec_page(page_idx as int) is None,
            },
    {
        if page_idx < self.pages.len() {
            self.pages[page_idx].as_ref()
        } else {
            None
        }
    }

    /// Allocates page `page_idx`, zeroed, unless it exists already. An index
    /// past the last page is ignored. Allocating does not fail.
    pub fn allocate_page(&mut self, page_idx: usize) -> (r: Result<(), CacheError>)
        requires
            old(self).wf(),
        ensures
            final(self).wf(),
            final(self).same_shape_as(*old(self)),
            final(self).spec_current_seq_len() == old(self).spec_current_seq_len(),
            final(self).usage() == old(self).usage(),
            r is Ok,
            page_idx < old(self).spec_num_pages() ==> final(self).allocated() == old(
                self
            ).allocated().update(page_idx as int, true),
            page_idx >= old(self).spec_num_pages() ==> final(self).allocated() == old(
                self
            ).allocated(),
            forall|i: int|
                i != page_idx || (0 <= i < old(self).spec_num_pages() && old(self).allocated()[i])
                    ==> #[trigger] final(self).spec_page(i) == old(self).spec_page(i),
            page_idx < old(self).spec_num_pages() && !old(self).allocated()[page_idx as int] ==> ({
                &&& final(self).spec_page(page_idx as int) matches Some(page)
                &&& tensor_dims(page.k) == old(self).page_extent()
                &&& tensor_dims(page.v) == old(self).page_extent()
            }),
    {
        if page_idx >= self.max_pages {
            return Ok(());
        }
        if self.pages[page_idx].is_none() {
            let page = match self.fresh_page() {
                Ok(page) => page,
                Err(e) => {
                    return Err(e);
                },
            };
            self.pages.set(page_idx, Some(page));
            assert(self.allocated() =~= old(self).allocated().update(page_idx as int, true));
        } else {
            assert(self.allocated() =~= old(self).allocated().update(page_idx as int, true));
        }
        Ok(())
    }

    /// Two caches were made with the same parameters.
    pub open spec fn same_shape_as(&self, other: Self) -> bool {
        &&& self.spec_page_size() == other.spec_page_size()
        &&& self.spec_num_pages() == other.spec_num_pages()
        &&& self.spec_num_heads() == other.spec_num_heads()
        &&& self.spec_head_dim() == other.spec_head_dim()
    }

    /// The extent of the keys, and of the values, of one page: one
    /// sequence, the heads, the positions of a page, the width of a head.
    pub open spec fn page_extent(&self) -> Seq<usize> {
        seq![
            1usize,
            self.spec_num_heads() as usize,
            self.spec_page_size() as usize,
            self.spec_head_dim() as usize,
        ]
    }

    /// A page of this cache, newly made: its keys and its values have the
    /// extent of a page. Making one does not fail.
    fn fresh_page(&self) -> (r: Result<KvPage, CacheError>)
        requires
            self.wf(),
        ensures
            r matches Ok(page) && page_like(page, self.page_extent()),
    {
        assert(self.num_heads * self.page_size * self.head_dim * 4 == self.num_heads
            * self.head_dim * 64) by (nonlinear_arith)
            requires
                self.page_size == 16,
        ;
        let k = match zero_page(self.num_heads, self.page_size, self.head_dim) {
            Ok(t) => t,
            Err(e) => {
                return Err(CacheError::Backend(describe(&e)));
            },
        };
        let v = match zero_page(self.num_heads, self.page_size, self.head_dim) {
            Ok(t) => t,
            Err(e) => {
                return Err(CacheError::Backend(describe(&e)));
            },
        };
        Ok(KvPage { k, v })
    }

    /// Writes the leading positions of `k` and `v` into page `page_idx`
    /// from `offset` on, as many as the page has room for, allocating the
    /// page first where it is absent. A page index or an offset out of range
    /// is ignored. The write succeeds exactly where the backend copies the
    /// keys and the values into the page, which stays allocated either way.
    pub fn write_to_page(
        &mut self,
        page_idx: usize,
        offset: usize,
        k: &candle_core::Tensor,
        v: &candle_core::Tensor,
    ) -> (r: Result<(), CacheError>)
        requires
            old(self).wf(),
        ensures
            final(self).wf(),
            final(self).same_shape_as(*old(self)),
            final(self).spec_current_seq_len() == old(self).spec_current_seq_len(),
            r matches Err(e) ==> e is Backend && final(self).usage() == old(self).usage(),
            page_idx >= old(self).spec_num_pages() || offset >= 16 ==> r is Ok && final(
                self
            ).allocated() == old(self).allocated() && final(self).usage() == old(self).usage(),
            page_idx < old(self).spec_num_pages() && offset < 16 ==> final(self).allocated() == old(
                self
            ).allocated().update(page_idx as int, true),
            r is Ok && page_idx < old(self).spec_num_pages() && offset < 16 ==> final(self).usage()
                == old(self).usage().update(
                page_idx as int,
                if positions_of(*k) <= 16 - offset {
                    (offset + positions_of(*k)) as nat
                } else {
                    16nat
                },
            ),
            forall|i: int|
                i != page_idx || (0 <= i < old(self).spec_num_pages() && old(self).allocated()[i])
                    ==> #[trigger] final(self).spec_page(i) == old(self).spec_page(i),
            page_idx < old(self).spec_num_pages() && offset < 16 ==> ({
                &&& final(self).spec_page(page_idx as int) matches Some(page)
                &&& r is Ok <==> copies(
                    page.k,
                    *k,
                    0,
                    taken(positions_of(*k), offset as nat),
                    offset as nat,
                ) && copies(page.v, *v, 0, taken(positions_of(*k), offset as nat), offset as nat)
            }),
    {
        if page_idx >= self.max_pages || offset >= self.page_size {
            return Ok(());
        }
        match self.allocate_page(page_idx) {
            Ok(()) => {},
            Err(e) => {
                return Err(e);
            },
        }
        assert(self.allocated()[page_idx as int]);
        assert(self.pages@[page_idx as int] is Some);
        let room: usize = self.page_size - offset;
        let offered: usize = positions_in(k);
        let seq_len: usize = if offered <= room {
            offered
        } else {
            room
        };
        match &self.pages[page_idx] {
            Some(page) => {
                match copy_span(&page.k, k, 0, seq_len, offset) {
                    Ok(()) => {},
                    Err(why) => {
                        return Err(CacheError::Backend(why));
                    },
                }
                match copy_span(&page.v, v, 0, seq_len, offset) {
                    Ok(()) => {},
                    Err(why) => {
                        return Err(CacheError::Backend(why));
                    },
                }
            },
            None => {},
        }
        let ghost usage_before = self.page_usage@;
        self.page_usage.insert(page_idx, offset + seq_len);
        proof {
            assert forall|i: int| 0 <= i < self.max_pages implies #[trigger] recorded(
                self.page_usage@,
                i,
            ) == (if i == page_idx {
                (offset + seq_len) as nat
            } else {
                recorded(usage_before, i)
            }) by {}
        }
        assert(self.usage() =~= old(self).usage().update(
            page_idx as int,
            (offset + seq_len) as nat,
        ));
        Ok(())
    }

    /// The backend copies into `page` what an append of `n` positions of
    /// `k` and `v`, to a cache that holds `len`, has for page `at`.
    pub open spec fn takes(
        page: KvPage,
        k: candle_core::Tensor,
        v: candle_core::Tensor,
        at: nat,
        len: nat,
        n: nat,
    ) -> bool {
        &&& copies(page.k, k, span_source(at, len), span_len(at, len, n), span_offset(at, len))
        &&& copies(page.v, v, span_source(at, len), span_len(at, len, n), span_offset(at, len))
    }

    /// Appends the positions of `k` and `v` to the cache, allocating the
    /// pages they reach and splitting them at page boundaries, and returns
    /// the keys and values that were stored. Appending no position succeeds
    /// and changes nothing, and so does nothing that finds the cache full.
    /// Otherwise the pages reached are allocated, and the append succeeds
    /// exactly where the backend copies into each of them what is meant
    /// for it; where it does not, the length and the usage of the pages
    /// stay as they were.
    pub fn append(&mut self, k: &candle_core::Tensor, v: &candle_core::Tensor) -> (r: Result<
        (candle_core::Tensor, candle_core::Tensor),
        CacheError,
    >)
        requires
            old(self).wf(),
        ensures
            final(self).wf(),
            final(self).same_shape_as(*old(self)),
            r is Ok ==> old(self).spec_current_seq_len() + positions_of(*k) <= old(self).spec_max_seq_len(),
            positions_of(*k) == 0 ==> r is Ok,
            r is Ok ==> final(self).spec_current_seq_len() == old(self).spec_current_seq_len()
                + positions_of(*k),
            !(r matches Err(CacheError::Full)) ==> final(self).allocated().len() == old(
                self,
            ).allocated().len() && forall|i: int|
                0 <= i < old(self).spec_num_pages() ==> #[trigger] final(self).allocated()[i] == (
                old(self).allocated()[i] || touched(
                    i as nat,
                    old(self).spec_current_seq_len(),
                    positions_of(*k),
                )),
            r is Ok ==> final(self).usage().len() == old(self).usage().len() && forall|i: int|
                0 <= i < old(self).spec_num_pages() ==> #[trigger] final(self).usage()[i] == (
                if touched(i as nat, old(self).spec_current_seq_len(), positions_of(*k)) {
                    fill_of(i as nat, old(self).spec_current_seq_len() + positions_of(*k))
                } else {
                    old(self).usage()[i]
                }),
            r is Ok && old(self).dense() ==> final(self).dense(),
            r is Err ==> final(self).spec_current_seq_len() == old(self).spec_current_seq_len()
                && final(self).usage() == old(self).usage(),
            r matches Err(CacheError::Full) ==> final(self).allocated() == old(self).allocated(),
            r matches Err(e) ==> (e is Full <==> old(self).spec_current_seq_len() + positions_of(*k)
                > old(self).spec_max_seq_len()),
            forall|i: int|
                0 <= i < old(self).spec_num_pages() && old(self).allocated()[i]
                    ==> #[trigger] final(self).spec_page(i) == old(self).spec_page(i),
            r is Ok <==> old(self).spec_current_seq_len() + positions_of(*k) <= old(
                self,
            ).spec_max_seq_len() && forall|i: int|
                0 <= i < old(self).spec_num_pages() && touched(
                    i as nat,
                    old(self).spec_current_seq_len(),
                    positions_of(*k),
                ) ==> (#[trigger] final(self).spec_page(i) matches Some(page) && Self::takes(
                    page,
                    *k,
                    *v,
                    i as nat,
                    old(self).spec_current_seq_len(),
                    positions_of(*k),
                )),
    {
        let n: usize = positions_in(k);
        let cur: usize = self.current_seq_len;
        let room: usize = self.max_pages * self.page_size - cur;
        if n > room {
            return Err(CacheError::Full);
        }
        if n == 0 {
            assert(self.allocated() =~= old(self).allocated());
            assert(self.usage() =~= old(self).usage());
            return Ok((share(k), share(v)));
        }
        let first: usize = cur / 16;
        let last: usize = (cur + n - 1) / 16;
        proof {
            assert forall|i: int| 0 <= i < self.max_pages implies (#[trigger] touched(
                i as nat,
                cur as nat,
                n as nat,
            ) <==> first <= i <= last) by {}
        }
        let mut idx: usize = first;
        while idx <= last
            invariant
                self.wf(),
                self.same_shape_as(*old(self)),
                self.max_pages == old(self).max_pages,
                self.current_seq_len == cur,
                self.usage() == old(self).usage(),
                first <= idx <= last + 1,
                last < self.max_pages,
                self.allocated().len() == old(self).allocated().len(),
                forall|i: int|
                    0 <= i < self.max_pages ==> #[trigger] self.allocated()[i] == (old(
                        self,
                    ).allocated()[i] || first <= i < idx),
                forall|i: int|
                    0 <= i < self.max_pages && old(self).allocated()[i] ==> #[trigger] self.spec_page(
                        i,
                    ) == old(self).spec_page(i),
            decreases last + 1 - idx,
        {
            let ghost before = *self;
            match self.allocate_page(idx) {
                Ok(()) => {},
                Err(e) => {
                    return Err(e);
                },
            }
            proof {
                assert forall|i: int| 0 <= i < self.max_pages && old(self).allocated()[i] implies #[trigger] self.spec_page(
                    i,
                ) == old(self).spec_page(i) by {
                    assert(before.spec_page(i) == old(self).spec_page(i));
                    assert(before.allocated()[i]);
                }
            }
            idx += 1;
        }
        let ghost staged = *self;
        proof {
            assert forall|i: int| first <= i <= last implies #[trigger] self.pages@[i] is Some by {
                assert(self.allocated()[i]);
            }
        }
        let mut written: usize = 0;
        idx = first;
        while idx <= last
            invariant
                *self == staged,
                self.wf(),
                staged.same_shape_as(*old(self)),
                staged.max_pages == old(self).max_pages,
                staged.usage() == old(self).usage(),
                cur == old(self).current_seq_len,
                staged.allocated().len() == old(self).allocated().len(),
                forall|i: int|
                    0 <= i < staged.max_pages ==> #[trigger] staged.allocated()[i] == (old(
                        self,
                    ).allocated()[i] || first <= i <= last),
                forall|i: int|
                    0 <= i < staged.max_pages ==> (#[trigger] touched(
                        i as nat,
                        cur as nat,
                        n as nat,
                    ) <==> first <= i <= last),
                forall|i: int|
                    0 <= i < staged.max_pages && old(self).allocated()[i] ==> #[trigger] staged.spec_page(
                        i,
                    ) == old(self).spec_page(i),
                cur == self.current_seq_len,
                n > 0,
                n == positions_of(*k),
                cur + n <= self.max_pages * 16,
                first == cur / 16,
                last == (cur + n - 1) / 16,
                first <= idx <= last + 1,
                forall|i: int| first <= i <= last ==> #[trigger] self.pages@[i] is Some,
                idx == first ==> written == 0,
                first < idx <= last ==> cur + written == idx * 16,
                idx == last + 1 ==> written == n,
                idx <= last ==> written < n,
                forall|i: int|
                    first <= i < idx ==> Self::takes(
                        (#[trigger] self.pages@[i])->Some_0,
                        *k,
                        *v,
                        i as nat,
                        cur as nat,
                        n as nat,
                    ),
            decreases last + 1 - idx,
        {
            let offset: usize = if idx == first {
                cur % 16
            } else {
                0
            };
            let left: usize = n - written;
            let space: usize = 16 - offset;
            let to_write: usize = if left <= space {
                left
            } else {
                space
            };
            proof {
                assert(offset == span_offset(idx as nat, cur as nat));
                assert(written == span_source(idx as nat, cur as nat));
                assert(to_write == span_len(idx as nat, cur as nat, n as nat));
            }
            assert(self.pages@[idx as int] is Some);
            match &self.pages[idx] {
                Some(page) => {
                    match copy_span(&page.k, k, written, to_write, offset) {
                        Ok(()) => {},
                        Err(why) => {
                            proof {
                                assert(self.spec_page(idx as int) == Some(*page));
                                assert(touched(idx as nat, cur as nat, n as nat));
                            }
                            return Err(CacheError::Backend(why));
                        },
                    }
                    match copy_span(&page.v, v, written, to_write, offset) {
                        Ok(()) => {},
                        Err(why) => {
                            proof {
                                assert(self.spec_page(idx as int) == Some(*page));
                                assert(touched(idx as nat, cur as nat, n as nat));
                            }
                            return Err(CacheError::Backend(why));
                        },
                    }
                },
                None => {},
            }
            written += to_write;
            idx += 1;
        }
        idx = first;
        while idx <= last
            invariant
                first <= idx <= last + 1,
                last < self.max_pages,
                first == cur / 16,
                last == (cur + n - 1) / 16,
                n > 0,
                cur + n <= self.max_pages * 16,
                self.page_size == staged.page_size,
                self.max_pages == staged.max_pages,
                self.num_heads == staged.num_heads,
                self.head_dim == staged.head_dim,
                self.pages == staged.pages,
                self.current_seq_len == cur,
                staged.wf(),
                forall|key: usize|
                    #[trigger] self.page_usage@.contains_key(key) ==> key < self.max_pages,
                forall|i: int| first <= i <= last ==> #[trigger] self.pages@[i] is Some,
                forall|i: int|
                    0 <= i < first || idx <= i < self.max_pages ==> #[trigger] recorded(
                        self.page_usage@,
                        i,
                    ) == recorded(staged.page_usage@, i),
                forall|i: int|
                    first <= i < idx ==> #[trigger] recorded(self.page_usage@, i) == fill_of(
                        i as nat,
                        (cur + n) as nat,
                    ),
            decreases last + 1 - idx,
        {
            let filled: usize = if cur + n - idx * 16 >= 16 {
                16
            } else {
                cur + n - idx * 16
            };
            let ghost usage_before = self.page_usage@;
            self.page_usage.insert(idx, filled);
            proof {
                assert forall|i: int| 0 <= i < self.max_pages implies #[trigger] recorded(
                    self.page_usage@,
                    i,
                ) == (if i == idx {
                    filled as nat
                } else {
                    recorded(usage_before, i)
                }) by {}
            }
            idx += 1;
        }
        self.current_seq_len = cur + n;
        proof {
            assert(self.allocated() =~= staged.allocated());
            assert(self.usage().len() == old(self).usage().len());
            assert forall|i: int| 0 <= i < self.max_pages implies #[trigger] self.usage()[i] == (
            if touched(i as nat, cur as nat, n as nat) {
                fill_of(i as nat, (cur + n) as nat)
            } else {
                old(self).usage()[i]
            }) by {
                assert(staged.usage()[i] == old(self).usage()[i]);
            }
            assert forall|i: int| 0 <= i < self.max_pages implies #[trigger] self.allocated()[i]
                == (old(self).allocated()[i] || touched(i as nat, cur as nat, n as nat)) by {
                assert(staged.allocated()[i] == (old(self).allocated()[i] || first <= i < last + 1));
            }
            assert forall|i: int|
                0 <= i < self.max_pages && touched(i as nat, cur as nat, n as nat) implies (
            #[trigger] self.spec_page(i) matches Some(page) && Self::takes(
                page,
                *k,
                *v,
                i as nat,
                cur as nat,
                n as nat,
            )) by {
                assert(self.pages@[i] is Some);
            }
            assert forall|i: int|
                0 <= i < self.max_pages && old(self).allocated()[i] implies #[trigger] self.spec_page(
                i,
            ) == old(self).spec_page(i) by {
                assert(staged.spec_page(i) == old(self).spec_page(i));
            }
            if old(self).dense() {
                assert forall|i: int| 0 <= i < self.max_pages implies (#[trigger] self.pages@[i]
                    is Some <==> i * 16 < self.current_seq_len) && recorded(self.page_usage@, i) == fill_of(
                    i as nat,
                    self.current_seq_len as nat,
                ) by {
                    assert(self.allocated()[i] == (self.pages@[i] is Some));
                    assert(old(self).allocated()[i] == (old(self).pages@[i] is Some));
                    assert(self.usage()[i] == recorded(self.page_usage@, i));
                    assert(old(self).usage()[i] == recorded(old(self).page_usage@, i));
                    assert(touched(i as nat, cur as nat, n as nat) <==> first <= i <= last);
                }
            }
        }
        Ok((share(k), share(v)))
    }

    /// `part` is a span of a page of extent `extent`: of the kind of a page,
    /// and of its extent but for the positions.
    pub open spec fn part_of(part: candle_core::Tensor, extent: Seq<usize>) -> bool {
        &&& tensor_kind(part) == 0
        &&& tensor_dims(part).len() == extent.len()
        &&& forall|axis: int|
            0 <= axis < extent.len() && axis != 2 ==> tensor_dims(part)[axis] == extent[axis]
    }

    /// The keys and values of all positions written so far, page after
    /// page; nothing where the cache is empty. The pages of a cache are of
    /// one kind and one extent, so joining what is used of them does not
    /// fail.
    pub fn get_cache_tensor(&self) -> (r: Result<
        Option<(candle_core::Tensor, candle_core::Tensor)>,
        CacheError,
    >)
        requires
            self.wf(),
        ensures
            r matches Ok(found) && (found is Some <==> self.spec_current_seq_len() > 0 && exists|
                i: int,
            |
                0 <= i < self.spec_num_pages() && #[trigger] self.usage()[i] > 0),
    {
        if self.current_seq_len == 0 {
            return Ok(None);
        }
        let mut k_parts: Vec<candle_core::Tensor> = Vec::new();
        let mut v_parts: Vec<candle_core::Tensor> = Vec::new();
        let mut i: usize = 0;
        while i < self.max_pages
            invariant
                self.wf(),
                i <= self.max_pages,
                k_parts@.len() == v_parts@.len(),
                k_parts@.len() > 0 <==> exists|j: int| 0 <= j < i && #[trigger] self.usage()[j] > 0,
                self.usage().len() == self.max_pages,
                self.current_seq_len > 0,
                forall|j: int|
                    0 <= j < k_parts@.len() ==> Self::part_of(#[trigger] k_parts@[j], self.page_extent()),
                forall|j: int|
                    0 <= j < v_parts@.len() ==> Self::part_of(#[trigger] v_parts@[j], self.page_extent()),
            decreases self.max_pages - i,
        {
            let used: usize = self.page_used(i);
            match &self.pages[i] {
                Some(page) => {
                    if used > 0 {
                        assert(self.usage()[i as int] > 0);
                        assert(page_like(*page, self.page_extent()));
                        assert(used <= 16);
                        match span_of(&page.k, 0, used) {
                            Ok(t) => k_parts.push(t),
                            Err(e) => {
                                return Err(CacheError::Backend(describe(&e)));
                            },
                        }
                        match span_of(&page.v, 0, used) {
                            Ok(t) => v_parts.push(t),
                            Err(e) => {
                                return Err(CacheError::Backend(describe(&e)));
                            },
                        }
                    }
                },
                None => {},
            }
            proof {
                if used > 0 {
                    assert(self.usage()[i as int] > 0);
                }
            }
            i += 1;
        }
        if k_parts.len() == 0 {
            return Ok(None);
        }
        proof {
            assert forall|j: int| 0 <= j < k_parts@.len() implies fits_beside(
                #[trigger] k_parts@[j],
                k_parts@[0],
            ) by {
                assert(Self::part_of(k_parts@[0], self.page_extent()));
            }
            assert forall|j: int| 0 <= j < v_parts@.len() implies fits_beside(
                #[trigger] v_parts@[j],
                v_parts@[0],
            ) by {
                assert(Self::part_of(v_parts@[0], self.page_extent()));
            }
            assert(joinable(k_parts@));
            assert(joinable(v_parts@));
        }
        let full_k = match join_spans(&k_parts) {
            Ok(t) => t,
            Err(e) => {
                return Err(CacheError::Backend(describe(&e)));
            },
        };
        let full_v = match join_spans(&v_parts) {
            Ok(t) => t,
            Err(e) => {
                return Err(CacheError::Backend(describe(&e)));
            },
        };
        Ok(Some((full_k, full_v)))
    }

    /// Drops every page and starts again from no positions.
    pub fn reset(&mut self)
        requires
            old(self).wf(),
        ensures
            final(self).wf(),
            final(self).dense(),
            final(self).same_shape_as(*old(self)),
            final(self).spec_current_seq_len() == 0,
            final(self).spec_allocated_pages() == 0,
            forall|i: int|
                0 <= i < old(self).spec_num_pages() ==> !(#[trigger] final(self).allocated()[i])
                    && final(self).usage()[i] == 0,
    {
        let mut i: usize = 0;
        while i < self.max_pages
            invariant
                i <= self.max_pages,
                self.page_size == DEFAULT_PAGE_SIZE,
                self.max_pages == old(self).max_pages,
                self.num_heads == old(self).num_heads,
                self.head_dim == old(self).head_dim,
                self.max_pages * 16 <= usize::MAX,
                self.num_heads * self.head_dim * 64 <= isize::MAX,
                self.pages@.len() == self.max_pages,
                forall|j: int| 0 <= j < i ==> #[trigger] self.pages@[j] is None,
            decreases self.max_pages - i,
        {
            self.pages.set(i, None);
            i += 1;
        }
        self.page_usage.clear();
        self.current_seq_len = 0;
        proof {
            lemma_none_present(self.allocated(), self.allocated().len());
        }
    }
}

/// A cache has pages of sixteen positions and never holds more positions
/// than it has room for, and it keeps account of each of its pages: whether
/// it is allocated, and how much of it is used.
pub proof fn lemma_every_page_accounted(cache: PagedKvCache)
    requires
        cache.wf(),
    ensures
        cache.spec_page_size() == 16,
        cache.spec_current_seq_len() <= cache.spec_max_seq_len(),
        cache.spec_max_seq_len() <= usize::MAX,
        cache.allocated().len() == cache.spec_num_pages(),
        cache.usage().len() == cache.spec_num_pages(),
        forall|i: int|
            0 <= i < cache.spec_num_pages() ==> (#[trigger] cache.allocated()[i] <==> cache.spec_page(
                i,
            ) is Some),
        forall|i: int|
            0 <= i < cache.spec_num_pages() ==> #[trigger] cache.usage()[i] <= 16 && (
            !cache.allocated()[i] ==> cache.usage()[i] == 0),
{
    assert forall|i: int| 0 <= i < cache.spec_num_pages() implies #[trigger] cache.usage()[i] <= 16
        && (!cache.allocated()[i] ==> cache.usage()[i] == 0) by {
        assert(recorded(cache.page_usage@, i) <= 16);
    }
}

/// Where no page is present, none is counted.
pub proof fn lemma_none_present(pages: Seq<bool>, upto: nat)
    requires
        upto <= pages.len(),
        forall|i: int| 0 <= i < upto ==> !pages[i],
    ensures
        present_count(pages, upto) == 0,
    decreases upto,
{
    if upto > 0 {
        lemma_none_present(pages, (upto - 1) as nat);
    }
}

/// Where the pages below a bound are present and those from it on are
/// absent, the count is the bound, capped by how far one looks.
pub proof fn lemma_prefix_present(pages: Seq<bool>, bound: nat, upto: nat)
    requires
        upto <= pages.len(),
        forall|i: int| 0 <= i < upto ==> (#[trigger] pages[i] <==> i < bound),
    ensures
        present_count(pages, upto) == if upto <= bound {
            upto
        } else {
            bound
        },
    decreases upto,
{
    if upto > 0 {
        lemma_prefix_present(pages, bound, (upto - 1) as nat);
    }
}

/// A cache that has only been appended to since it was made or reset holds
/// as many pages as its positions need: the length divided by the page
/// size, rounded up.
pub proof fn lemma_dense_page_count(cache: PagedKvCache)
    requires
        cache.wf(),
        cache.dense(),
    ensures
        cache.spec_allocated_pages() == pages_for(cache.spec_current_seq_len()),
        forall|i: int|
            0 <= i < cache.spec_num_pages() ==> #[trigger] cache.usage()[i] == fill_of(
                i as nat,
                cache.spec_current_seq_len(),
            ),
{
    let bound = pages_for(cache.spec_current_seq_len());
    assert forall|i: int| 0 <= i < cache.allocated().len() implies (#[trigger] cache.allocated()[i]
        <==> i < bound) by {
        assert(cache.pages@[i] is Some <==> i * 16 < cache.current_seq_len);
    }
    lemma_prefix_present(cache.allocated(), bound, cache.allocated().len());
}

#[derive(Clone, Copy, Debug, PartialEq, Eq, Structural)]
pub struct PagedAttentionConfig {
    pub page_size: usize,
    pub max_seq_len: usize,
    pub num_heads: usize,
    pub head_dim: usize,
}

impl Default for PagedAttentionConfig {
    fn default() -> (config: Self)
        ensures
            config == (PagedAttentionConfig {
                page_size: 16,
                max_seq_len: 4096,
                num_heads: 32,
                head_dim: 128,
            }),
    {
        PagedAttentionConfig {
            page_size: DEFAULT_PAGE_SIZE,
            max_seq_len: 4096,
            num_heads: 32,
            head_dim: 128,
        }
    }
}

} // verus!
