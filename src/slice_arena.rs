use core::marker::PhantomData;
use vstd::prelude::*;

verus! {

/// Bytes that one page of a [`SliceArena`] holds at least.
pub const PAGE_BYTES: usize = 4096;

/// A run of `len` elements that starts at `start_idx` in page `chunk_idx`.
pub struct SliceHandle<T> {
    pub chunk_idx: usize,
    pub start_idx: usize,
    pub len: usize,
    pub _data: PhantomData<T>,
}

impl<T> SliceHandle<T> {
    /// The empty run at the start of the first page.
    pub fn empty() -> (r: Self)
        ensures
            r.chunk_idx == 0,
            r.start_idx == 0,
            r.len == 0,
    {
        SliceHandle { chunk_idx: 0, start_idx: 0, len: 0, _data: PhantomData }
    }

    /// Number of elements in the run.
    pub fn len(&self) -> (r: usize)
        ensures
            r == self.len,
    {
        self.len
    }
}

/// Elements that a new page is sized for: those that fill `PAGE_BYTES`, or `required` where
/// that is more.
pub open spec fn page_capacity<T>(required: nat) -> nat {
    let unit = if vstd::layout::size_of::<T>() == 0 {
        1
    } else {
        vstd::layout::size_of::<T>()
    };
    let fill = PAGE_BYTES as nat / unit;
    if fill > required {
        fill
    } else {
        required
    }
}

/// One page: its elements, and the number of elements it was sized for.
struct Page<T> {
    items: Vec<T>,
    capacity: usize,
}

/// A page sized for `max(PAGE_BYTES / size_of::<T>(), required)` elements (a zero-sized
/// element counts as one byte).
fn alloc_chunk<T>(required: usize) -> (r: Page<T>)
    ensures
        r.items@.len() == 0,
        r.capacity >= required,
        r.capacity == page_capacity::<T>(required as nat),
{
    let size = core::mem::size_of::<T>();
    let unit = if size == 0 {
        1
    } else {
        size
    };
    let allocated_amount: usize = PAGE_BYTES / unit;
    let capacity = if allocated_amount > required {
        allocated_amount
    } else {
        required
    };
    Page { items: Vec::with_capacity(capacity), capacity }
}

/// Variable-length arrays stored back to back in pages; a handle stays valid until `clear`.
pub struct SliceArena<T> {
    pages: Vec<Page<T>>,
}

/// What a handle designates in pages `pages`, if it lies within one of them.
pub open spec fn slice_of<T>(pages: Seq<Seq<T>>, h: SliceHandle<T>) -> Option<Seq<T>> {
    if h.chunk_idx < pages.len() && h.start_idx + h.len <= pages[h.chunk_idx as int].len() {
        Some(pages[h.chunk_idx as int].subrange(h.start_idx as int, h.start_idx + h.len))
    } else {
        None
    }
}

/// Where an insert of `items` that returned `r` put them: at the end of the last page where it
/// had room for all of them, else alone in a new page sized for them.
pub open spec fn placed<T>(
    before: SliceArena<T>,
    after: SliceArena<T>,
    items: Seq<T>,
    r: SliceHandle<T>,
) -> bool {
    if items.len() <= before.spare() {
        &&& r.chunk_idx == before.pages().len() - 1
        &&& r.start_idx == before.pages().last().len()
        &&& after.pages() == before.pages().update(r.chunk_idx as int, before.pages().last() + items)
        &&& after.capacities() == before.capacities()
    } else {
        &&& r.chunk_idx == before.pages().len()
        &&& r.start_idx == 0
        &&& after.pages() == before.pages().push(items)
        &&& after.capacities().drop_last() == before.capacities()
        &&& after.capacities().last() == page_capacity::<T>(items.len())
    }
}

/// A run that could be read before an insert reads the same after it, and does not overlap
/// the run that the insert returned.
pub proof fn lemma_insert_keeps_runs<T>(
    before: SliceArena<T>,
    after: SliceArena<T>,
    items: Seq<T>,
    r: SliceHandle<T>,
    h: SliceHandle<T>,
)
    requires
        before.wf(),
        placed(before, after, items, r),
        slice_of(before.pages(), h) is Some,
    ensures
        slice_of(after.pages(), h) == slice_of(before.pages(), h),
        h.chunk_idx != r.chunk_idx || h.start_idx + h.len <= r.start_idx,
{
    before.lemma_has_page();
    if items.len() <= before.spare() {
        if h.chunk_idx == r.chunk_idx {
            let page = before.pages().last();
            assert((page + items).subrange(h.start_idx as int, h.start_idx + h.len)
                =~= page.subrange(h.start_idx as int, h.start_idx + h.len));
        }
    }
}

impl<T> SliceArena<T> {
    proof fn lemma_has_page(&self)
        requires
            self.wf(),
        ensures
            self.pages().len() >= 1,
    {
    }
}

impl<T> SliceArena<T> {
    /// The elements of each page.
    pub closed spec fn pages(&self) -> Seq<Seq<T>> {
        Seq::new(self.pages@.len(), |i: int| self.pages@[i].items@)
    }

    /// The number of elements each page was sized for.
    pub closed spec fn capacities(&self) -> Seq<nat> {
        Seq::new(self.pages@.len(), |i: int| self.pages@[i].capacity as nat)
    }

    /// There is a page.
    pub closed spec fn wf(&self) -> bool {
        self.pages@.len() >= 1
    }

    /// Room left in the last page (none where there is no page).
    pub open spec fn spare(&self) -> int {
        if self.pages().len() == 0 {
            0
        } else {
            self.capacities().last() - self.pages().last().len()
        }
    }

    /// An arena with one empty page.
    pub fn new() -> (r: Self)
        ensures
            r.wf(),
            r.pages() == seq![Seq::<T>::empty()],
            r.capacities().len() == 1,
            r.capacities()[0] == page_capacity::<T>(0),
    {
        let mut pages: Vec<Page<T>> = Vec::new();
        pages.push(alloc_chunk(0));
        let r = SliceArena { pages };
        assert(r.pages()[0] =~= Seq::<T>::empty());
        assert(r.pages() =~= seq![Seq::<T>::empty()]);
        r
    }

    /// Appends `items` as one run: in the last page where it has room for all of them, else
    /// in a new page sized for at least them.
    pub fn insert(&mut self, items: Vec<T>) -> (r: SliceHandle<T>)
        requires
            old(self).wf(),
        ensures
            final(self).wf(),
            r.len == items@.len(),
            r.chunk_idx == final(self).pages().len() - 1,
            slice_of(final(self).pages(), r) == Some(items@),
            placed(*old(self), *final(self), items@, r),
    {
        let ghost old_pages = self.pages();
        let ghost old_caps = self.capacities();
        let last = self.pages.len() - 1;
        let min_size = items.len();
        let starting_len = self.pages[last].items.len();
        let capacity = self.pages[last].capacity;
        if starting_len <= capacity && min_size <= capacity - starting_len {
            let mut items = items;
            let ghost added = items@;
            self.pages[last].items.append(&mut items);
            let r = SliceHandle { chunk_idx: last, start_idx: starting_len, len: min_size, _data: PhantomData };
            proof {
                assert(self.pages() =~= old_pages.update(last as int, old_pages.last() + added));
                assert(self.capacities() =~= old_caps);
                assert(self.pages()[last as int].subrange(starting_len as int, starting_len + min_size) =~= added);
            }
            r
        } else {
            let mut items = items;
            let ghost added = items@;
            let ghost mid_pages = self.pages();
            let mut page = alloc_chunk(min_size);
            page.items.append(&mut items);
            let nc_len = page.items.len();
            self.pages.push(page);
            let r = SliceHandle { chunk_idx: self.pages.len() - 1, start_idx: 0, len: nc_len, _data: PhantomData };
            proof {
                assert(self.pages() =~= old_pages.push(added));
                assert(self.capacities().drop_last() =~= old_caps);
                assert(self.pages().last().subrange(0, nc_len as int) =~= added);
            }
            r
        }
    }
    /// The run that `handle` designates, if it lies within a page.
    pub fn get(&self, handle: &SliceHandle<T>) -> (r: Option<&[T]>)
        ensures
            match r {
                Some(s) => slice_of(self.pages(), *handle) == Some(s@),
                None => slice_of(self.pages(), *handle) is None,
            },
    {
        if handle.chunk_idx >= self.pages.len() {
            return None;
        }
        let page = &self.pages[handle.chunk_idx].items;
        if handle.start_idx > page.len() || handle.len > page.len() - handle.start_idx {
            return None;
        }
        let r = vstd::slice::slice_subrange(
            page.as_slice(),
            handle.start_idx,
            handle.start_idx + handle.len,
        );
        Some(r)
    }

    /// Mutable access to the run that `handle` designates, if it lies within a page.
    pub fn get_mut(&mut self, handle: &SliceHandle<T>) -> (r: Option<&mut [T]>)
        requires
            old(self).wf(),
        ensures
            r is None <==> slice_of(old(self).pages(), *handle) is None,
            r is None ==> *final(self) == *old(self),
            r is Some ==> slice_of(old(self).pages(), *handle) == Some(r->Some_0@),
            r is Some ==> final(self).wf(),
            r is Some ==> final(self).capacities() == old(self).capacities(),
            r is Some ==> final(self).pages().len() == old(self).pages().len(),
            r is Some ==> forall|j: int|
                0 <= j < old(self).pages().len() && j != handle.chunk_idx
                    ==> #[trigger] final(self).pages()[j] == old(self).pages()[j],
            r is Some ==> final(self).pages()[handle.chunk_idx as int] =~= old(self).pages()[handle.chunk_idx as int].subrange(0, handle.start_idx as int)
                + final(r->Some_0)@ + old(self).pages()[handle.chunk_idx as int].subrange(
                    handle.start_idx + handle.len,
                    old(self).pages()[handle.chunk_idx as int].len() as int,
                ),
    {
        if handle.chunk_idx >= self.pages.len() {
            return None;
        }
        let page_len = self.pages[handle.chunk_idx].items.len();
        if handle.start_idx > page_len || handle.len > page_len - handle.start_idx {
            return None;
        }
        let page = &mut self.pages[handle.chunk_idx];
        let all = page.items.as_mut_slice();
        let (_, rest) = all.split_at_mut(handle.start_idx);
        let (mid, _) = rest.split_at_mut(handle.len);
        Some(mid)
    }

    /// Empties every page; pages and their sizes are kept for reuse.
    pub fn clear(&mut self)
        requires
            old(self).wf(),
        ensures
            final(self).wf(),
            final(self).pages() == Seq::new(old(self).pages().len(), |i: int| Seq::<T>::empty()),
            final(self).capacities() == old(self).capacities(),
    {
        let ghost old_caps = self.capacities();
        let len = self.pages.len();
        let mut i: usize = 0;
        while i < len
            invariant
                len == self.pages@.len(),
                len >= 1,
                i <= len,
                self.capacities() == old_caps,
                forall|j: int| 0 <= j < i ==> (#[trigger] self.pages@[j]).items@.len() == 0,
            decreases len - i,
        {
            let ghost before = self.capacities();
            self.pages[i].items.clear();
            i += 1;
            proof {
                assert(self.capacities() =~= before);
            }
        }
        proof {
            assert forall|j: int| 0 <= j < len implies self.pages()[j] =~= Seq::<T>::empty() by {
                assert(self.pages@[j].items@.len() == 0);
            }
            assert(self.pages() =~= Seq::new(len as nat, |i: int| Seq::<T>::empty()));
        }
    }
}

} // verus!
