use core::marker::PhantomData;
use vstd::prelude::*;
use vstd::std_specs::bits::{axiom_u64_trailing_ones, u64_trailing_ones};

verus! {

/// Number of slots in one chunk of an [`Arena`].
pub const CHUNK_SLOTS: usize = 64;

/// A stable identifier of an entry of an [`Arena`]: chunk index times 64 plus slot index.
pub struct ArenaHandle<T> {
    pub index: usize,
    pub marker: PhantomData<T>,
}

impl<T> ArenaHandle<T> {
    /// A handle with the given encoded position.
    pub fn new(handle: usize) -> (r: Self)
        requires
            handle != usize::MAX,
        ensures
            r.index == handle,
    {
        ArenaHandle { index: handle, marker: PhantomData }
    }

    /// The sentinel handle, which no insert ever returns.
    pub fn invalid() -> (r: Self)
        ensures
            r.index == usize::MAX,
    {
        ArenaHandle { index: usize::MAX, marker: PhantomData }
    }
}

impl<T> Clone for ArenaHandle<T> {
    fn clone(&self) -> (r: Self)
        ensures
            r.index == self.index,
    {
        ArenaHandle { index: self.index, marker: PhantomData }
    }
}

impl<T> Copy for ArenaHandle<T> {

}

impl<T> PartialEq for ArenaHandle<T> {
    fn eq(&self, other: &ArenaHandle<T>) -> (r: bool) {
        self.index == other.index
    }
}

impl<T> vstd::std_specs::cmp::PartialEqSpecImpl for ArenaHandle<T> {
    open spec fn obeys_eq_spec() -> bool {
        true
    }

    open spec fn eq_spec(&self, other: &ArenaHandle<T>) -> bool {
        self.index == other.index
    }
}

impl<T> Eq for ArenaHandle<T> {

}

/// Whether slot `s` is marked occupied in the bitmap `used`.
pub open spec fn slot_used(used: u64, s: u64) -> bool {
    (used >> s) & 1u64 == 1u64
}

proof fn lemma_set_bit(used: u64, s: u64, t: u64)
    requires
        s < 64,
        t < 64,
    ensures
        slot_used(used | (1u64 << s), t) <==> (t == s || slot_used(used, t)),
{
    assert(((used | (1u64 << s)) >> t) & 1u64 == 1u64 <==> (t == s || (used >> t) & 1u64 == 1u64))
        by (bit_vector)
        requires
            s < 64,
            t < 64,
    ;
}

proof fn lemma_test_bit(used: u64, s: u64)
    requires
        s < 64,
    ensures
        ((used & (1u64 << s)) > 0) <==> slot_used(used, s),
{
    assert(((used & (1u64 << s)) > 0) <==> ((used >> s) & 1u64 == 1u64)) by (bit_vector)
        requires
            s < 64,
    ;
}

proof fn lemma_zero_bits()
    ensures
        forall|t: u64| t < 64 ==> !#[trigger] slot_used(0u64, t),
{
    assert forall|t: u64| t < 64 implies !#[trigger] slot_used(0u64, t) by {
        assert((0u64 >> t) & 1u64 == 0u64) by (bit_vector);
    }
}

proof fn lemma_full_bits()
    ensures
        forall|t: u64| t < 64 ==> #[trigger] slot_used(u64::MAX, t),
{
    assert forall|t: u64| t < 64 implies #[trigger] slot_used(u64::MAX, t) by {
        assert(t < 64 ==> (0xffff_ffff_ffff_ffffu64 >> t) & 1u64 == 1u64) by (bit_vector);
    }
}

/// A fixed block of 64 slots with its occupancy bitmap.
struct Chunk<T> {
    used: u64,
    content: Vec<Option<T>>,
}

impl<T> Chunk<T> {
    spec fn wf(&self) -> bool {
        &&& self.content@.len() == CHUNK_SLOTS
        &&& forall|s: u64|
            s < 64 ==> (#[trigger] slot_used(self.used, s) <==> self.content@[s as int] is Some)
    }

    spec fn is_full(&self) -> bool {
        self.used == u64::MAX
    }

    fn new() -> (r: Self)
        ensures
            r.wf(),
            r.used == 0,
            forall|s: int| 0 <= s < CHUNK_SLOTS ==> r.content@[s] is None,
    {
        let mut content: Vec<Option<T>> = Vec::new();
        let mut i: usize = 0;
        while i < CHUNK_SLOTS
            invariant
                i <= CHUNK_SLOTS,
                content@.len() == i,
                forall|s: int| 0 <= s < i ==> content@[s] is None,
            decreases CHUNK_SLOTS - i,
        {
            content.push(None);
            i += 1;
        }
        proof {
            lemma_zero_bits();
        }
        Chunk { used: 0, content }
    }

    /// Drops every occupant and marks every slot free.
    fn clear(&mut self)
        requires
            old(self).wf(),
        ensures
            final(self).wf(),
            final(self).used == 0,
            forall|s: int| 0 <= s < CHUNK_SLOTS ==> final(self).content@[s] is None,
    {
        let mut i: usize = 0;
        while i < CHUNK_SLOTS
            invariant
                i <= CHUNK_SLOTS,
                self.content@.len() == CHUNK_SLOTS,
                forall|s: int| 0 <= s < i ==> self.content@[s] is None,
            decreases CHUNK_SLOTS - i,
        {
            self.content.set(i, None);
            i += 1;
        }
        self.used = 0;
        proof {
            lemma_zero_bits();
        }
    }
}

/// A slot allocator with stable handles: chunks of 64 slots, each with an occupancy bitmap.
pub struct Arena<T> {
    content: Vec<Chunk<T>>,
    last_free: usize,
}

impl<T> Arena<T> {
    /// The value held at encoded position `h`, if that slot is occupied.
    pub closed spec fn entry(&self, h: usize) -> Option<T> {
        let c = h as int / 64;
        let s = h as int % 64;
        if c < self.content@.len() {
            self.content@[c].content@[s]
        } else {
            None
        }
    }

    /// Every chunk is well formed, and every chunk before `last_free` is full.
    pub closed spec fn wf(&self) -> bool {
        &&& self.content@.len() >= 1
        &&& self.last_free <= self.content@.len()
        &&& forall|c: int| 0 <= c < self.content@.len() ==> (#[trigger] self.content@[c]).wf()
        &&& forall|c: int| 0 <= c < self.last_free ==> (#[trigger] self.content@[c]).is_full()
    }

    /// Number of chunks that the arena holds.
    pub closed spec fn chunk_count(&self) -> nat {
        self.content@.len()
    }

    /// The occupied handles are exactly `0 .. n`.
    pub open spec fn holds_prefix(&self, n: nat) -> bool {
        forall|h: usize| #[trigger] self@.contains_key(h) <==> h < n
    }

    /// An empty arena with one chunk.
    pub fn new() -> (r: Self)
        ensures
            r.wf(),
            r@ == Map::<usize, T>::empty(),
            r.chunk_count() == 1,
    {
        let mut content: Vec<Chunk<T>> = Vec::new();
        content.push(Chunk::new());
        let r = Arena { content, last_free: 0 };
        assert(r@ =~= Map::<usize, T>::empty());
        r
    }

    proof fn lemma_view_entry(&self, h: usize)
        ensures
            self@.contains_key(h) <==> self.entry(h) is Some,
            self@.contains_key(h) ==> self@[h] == self.entry(h)->Some_0,
    {
    }

    /// Stores `item` in the lowest free slot of the first chunk, from `last_free` on, that has
    /// one, or in a new chunk; returns its handle.
    pub fn insert(&mut self, item: T) -> (r: ArenaHandle<T>)
        requires
            old(self).wf(),
            old(self).chunk_count() < usize::MAX / 64,
        ensures
            final(self).wf(),
            r.index != usize::MAX,
            inserted(*old(self), *final(self), r.index, item),
            final(self).chunk_count() <= old(self).chunk_count() + 1,
    {
        let ghost old_self = *self;
        let len = self.content.len();
        if self.last_free > len {
            self.last_free = len;
        }
        let mut i: usize = self.last_free;
        while i < len
            invariant
                old_self == *old(self),
                self.content == old_self.content,
                self.last_free == old_self.last_free,
                len == self.content@.len(),
                old_self.wf(),
                len < usize::MAX / 64,
                self.last_free <= i <= len,
                forall|c: int| 0 <= c < i ==> (#[trigger] self.content@[c]).is_full(),
            decreases len - i,
        {
            let used = self.content[i].used;
            let slot = used.trailing_ones();
            proof {
                axiom_u64_trailing_ones(used);
            }
            if slot < 64 {
                let slot = slot as usize;
                let ghost before = self.content@[i as int];
                proof {
                    assert forall|t: u64| t < 64 implies #[trigger] slot_used(
                        used | (1u64 << (slot as u64)),
                        t,
                    ) <==> (t == slot || slot_used(used, t)) by {
                        lemma_set_bit(used, slot as u64, t);
                    }
                    assert(!slot_used(used, slot as u64));
                }
                self.content[i].used = used | (1u64 << (slot as u64));
                self.content[i].content.set(slot, Some(item));
                self.last_free = i;
                let handle = i * 64 + slot;
                proof {
                    assert(self.content@[i as int].wf());
                    assert(handle as int / 64 == i as int && handle as int % 64 == slot as int);
                    assert forall|h: usize| h != handle implies self.entry(h) == old_self.entry(h) by {
                        if h as int / 64 == i as int {
                            assert(h as int % 64 != slot as int);
                        }
                    }
                    assert(self@ =~= old_self@.insert(handle, item)) by {
                        assert forall|h: usize| #[trigger] self@.contains_key(h) == old_self@.insert(handle, item).contains_key(h) by {
                            self.lemma_view_entry(h);
                            old_self.lemma_view_entry(h);
                        }
                        assert forall|h: usize| #[trigger] self@.contains_key(h) implies self@[h] == old_self@.insert(handle, item)[h] by {
                            self.lemma_view_entry(h);
                            old_self.lemma_view_entry(h);
                        }
                    }
                    old_self.lemma_view_entry(handle);
                    assert forall|n: nat| old_self.holds_prefix(n) implies handle == n by {
                        self.lemma_prefix_slot(old_self, n, i as int, slot as int);
                    }
                }
                return ArenaHandle::new(handle);
            }
            proof {
                assert(used == u64::MAX) by {
                    assert(u64_trailing_ones(used) == 64);
                }
            }
            i += 1;
        }
        let mut chunk = Chunk::new();
        proof {
            lemma_set_bit(0u64, 0u64, 0u64);
            assert forall|t: u64| t < 64 implies #[trigger] slot_used(0u64 | (1u64 << 0u64), t) <==> t == 0 by {
                lemma_set_bit(0u64, 0u64, t);
                lemma_zero_bits();
            }
        }
        chunk.used = chunk.used | (1u64 << 0u64);
        chunk.content.set(0, Some(item));
        self.content.push(chunk);
        self.last_free = len;
        let handle = len * 64;
        proof {
            assert(self.content@[len as int].wf());
            assert forall|c: int| 0 <= c < self.content@.len() implies (#[trigger] self.content@[c]).wf() by {
                if c < len {
                    assert(self.content@[c] == old_self.content@[c]);
                }
            }
            assert forall|h: usize| h != handle implies self.entry(h) == old_self.entry(h) by {
                if h as int / 64 == len as int {
                    assert(h as int % 64 != 0);
                }
            }
            assert(self@ =~= old_self@.insert(handle, item)) by {
                assert forall|h: usize| #[trigger] self@.contains_key(h) == old_self@.insert(handle, item).contains_key(h) by {
                    self.lemma_view_entry(h);
                    old_self.lemma_view_entry(h);
                }
                assert forall|h: usize| #[trigger] self@.contains_key(h) implies self@[h] == old_self@.insert(handle, item)[h] by {
                    self.lemma_view_entry(h);
                    old_self.lemma_view_entry(h);
                }
            }
            old_self.lemma_view_entry(handle);
            assert forall|n: nat| old_self.holds_prefix(n) implies handle == n by {
                old_self.lemma_prefix_full(n);
            }
        }
        ArenaHandle::new(handle)
    }

    /// Where the occupied handles are `0 .. n` and slot `s` of chunk `c` is the lowest free
    /// one, `n` is `c * 64 + s`.
    proof fn lemma_prefix_slot(self, old_self: Self, n: nat, c: int, s: int)
        requires
            old_self.wf(),
            old_self.holds_prefix(n),
            0 <= c < old_self.content@.len(),
            0 <= s < 64,
            c * 64 + s < usize::MAX,
            !slot_used(old_self.content@[c].used, s as u64),
            forall|t: u64| t < s ==> #[trigger] slot_used(old_self.content@[c].used, t),
            forall|d: int| 0 <= d < c ==> (#[trigger] old_self.content@[d]).is_full(),
        ensures
            c * 64 + s == n,
    {
        let h = (c * 64 + s) as usize;
        assert(h as int / 64 == c && h as int % 64 == s);
        old_self.lemma_view_entry(h);
        assert(!old_self@.contains_key(h));
        if n > h {
            assert(old_self@.contains_key(h));
        }
        if n < h {
            let m = n as usize;
            let mc = n as int / 64;
            let ms = n as int % 64;
            old_self.lemma_view_entry(m);
            assert(!old_self@.contains_key(m));
            if mc < c {
                lemma_full_bits();
                assert(old_self.content@[mc].is_full());
                assert(slot_used(old_self.content@[mc].used, ms as u64));
            } else {
                assert(mc == c);
                assert(ms < s);
                assert(slot_used(old_self.content@[c].used, ms as u64));
            }
        }
    }

    /// Where the occupied handles are `0 .. n` and every chunk is full, `n` is 64 times the
    /// number of chunks.
    proof fn lemma_prefix_full(self, n: nat)
        requires
            self.wf(),
            self.holds_prefix(n),
            forall|d: int| 0 <= d < self.content@.len() ==> (#[trigger] self.content@[d]).is_full(),
            self.content@.len() < usize::MAX / 64,
        ensures
            n == self.content@.len() * 64,
    {
        let len = self.content@.len();
        let h = (len * 64) as usize;
        self.lemma_view_entry(h);
        assert(h as int / 64 == len);
        if n > h {
            assert(self@.contains_key(h));
        }
        if n < h {
            let m = n as usize;
            self.lemma_view_entry(m);
            lemma_full_bits();
            let mc = n as int / 64;
            assert(self.content@[mc].is_full());
            assert(slot_used(self.content@[mc].used, (n as int % 64) as u64));
            assert(self@.contains_key(m));
        }
    }

    /// Handles can address one more chunk.
    pub open spec fn can_insert_spec(&self) -> bool {
        self.chunk_count() < usize::MAX / 64
    }

    /// Whether handles can address one more chunk, which `insert` may need.
    pub fn can_insert(&self) -> (r: bool)
        ensures
            r == self.can_insert_spec(),
    {
        self.content.len() < usize::MAX / 64
    }

    /// The value stored under `handle`, if its slot is occupied.
    pub fn get(&self, handle: &ArenaHandle<T>) -> (r: Option<&T>)
        requires
            self.wf(),
        ensures
            match r {
                Some(v) => self@.contains_key(handle.index) && *v == self@[handle.index],
                None => !self@.contains_key(handle.index),
            },
    {
        proof {
            self.lemma_view_entry(handle.index);
        }
        let chunk_idx = handle.index / 64;
        let slot_idx = handle.index % 64;
        if chunk_idx >= self.content.len() {
            return None;
        }
        let chunk = &self.content[chunk_idx];
        proof {
            lemma_test_bit(chunk.used, slot_idx as u64);
        }
        if (chunk.used & (1u64 << (slot_idx as u64))) > 0 {
            chunk.content[slot_idx].as_ref()
        } else {
            None
        }
    }

    /// Mutable access to the value stored under `handle`, if its slot is occupied.
    pub fn get_mut(&mut self, handle: &ArenaHandle<T>) -> (r: Option<&mut T>)
        requires
            old(self).wf(),
        ensures
            match r {
                Some(v) => {
                    &&& old(self)@.contains_key(handle.index)
                    &&& *v == old(self)@[handle.index]
                    &&& final(self).wf()
                    &&& final(self)@ == old(self)@.insert(handle.index, *final(v))
                    &&& final(self).chunk_count() == old(self).chunk_count()
                },
                None => !old(self)@.contains_key(handle.index) && *final(self) == *old(self),
            },
    {
        proof {
            self.lemma_view_entry(handle.index);
        }
        let chunk_idx = handle.index / 64;
        let slot_idx = handle.index % 64;
        if chunk_idx >= self.content.len() {
            return None;
        }
        let used = self.content[chunk_idx].used;
        proof {
            lemma_test_bit(used, slot_idx as u64);
        }
        if (used & (1u64 << (slot_idx as u64))) > 0 {
            let chunk = &mut self.content[chunk_idx];
            let slot = &mut chunk.content[slot_idx];
            slot.as_mut()
        } else {
            None
        }
    }

    /// Empties every chunk, keeping the chunks for reuse.
    pub fn purge(&mut self)
        requires
            old(self).wf(),
        ensures
            final(self).wf(),
            final(self)@ == Map::<usize, T>::empty(),
            final(self).chunk_count() == old(self).chunk_count(),
    {
        let len = self.content.len();
        let mut i: usize = 0;
        while i < len
            invariant
                len == self.content@.len(),
                len >= 1,
                i <= len,
                forall|c: int| 0 <= c < len ==> (#[trigger] self.content@[c]).wf(),
                forall|c: int, s: int|
                    0 <= c < i && 0 <= s < CHUNK_SLOTS ==> (#[trigger] self.content@[c].content@[s]) is None,
            decreases len - i,
        {
            self.content[i].clear();
            i += 1;
        }
        self.last_free = 0;
        proof {
            assert forall|h: usize| !(#[trigger] self@.contains_key(h)) by {
                self.lemma_view_entry(h);
            }
            assert(self@ =~= Map::<usize, T>::empty());
        }
    }
}

impl<T> View for Arena<T> {
    type V = Map<usize, T>;

    /// The occupied slots: handle to value.
    closed spec fn view(&self) -> Map<usize, T> {
        Map::new(|h: usize| self.entry(h) is Some, |h: usize| self.entry(h)->Some_0)
    }
}

/// What one insert of `v`, returning handle `h`, does to an arena.
pub open spec fn inserted<T>(before: Arena<T>, after: Arena<T>, h: usize, v: T) -> bool {
    &&& !before@.contains_key(h)
    &&& after@ == before@.insert(h, v)
    &&& forall|n: nat| before.holds_prefix(n) ==> h == n
}

/// A run of inserts: `states[i + 1]` is `states[i]` after inserting `values[i]`, which
/// returned `handles[i]`.
pub open spec fn insert_run<T>(states: Seq<Arena<T>>, handles: Seq<usize>, values: Seq<T>) -> bool {
    &&& states.len() == values.len() + 1
    &&& handles.len() == values.len()
    &&& forall|i: int|
        0 <= i < values.len() ==> inserted(#[trigger] states[i], states[i + 1], handles[i], values[i])
}

/// Round trip: after a run of inserts, each handle reads back the value inserted under it, and
/// the handles are pairwise distinct.
pub proof fn lemma_round_trip<T>(states: Seq<Arena<T>>, handles: Seq<usize>, values: Seq<T>)
    requires
        insert_run(states, handles, values),
    ensures
        forall|i: int|
            0 <= i < values.len() ==> states.last()@.contains_key(#[trigger] handles[i])
                && states.last()@[handles[i]] == values[i],
        forall|i: int, j: int|
            0 <= i < j < values.len() ==> #[trigger] handles[i] != #[trigger] handles[j],
    decreases values.len(),
{
    if values.len() > 0 {
        let n = values.len() - 1;
        assert(inserted(states[n as int], states[n + 1], handles[n as int], values[n as int]));
        lemma_round_trip(states.drop_last(), handles.drop_last(), values.drop_last());
        assert(insert_run(states.drop_last(), handles.drop_last(), values.drop_last())) by {
            assert forall|i: int| 0 <= i < n implies inserted(
                #[trigger] states.drop_last()[i],
                states.drop_last()[i + 1],
                handles.drop_last()[i],
                values.drop_last()[i],
            ) by {
                assert(inserted(states[i], states[i + 1], handles[i], values[i]));
            }
        }
        assert forall|i: int| 0 <= i < n implies states[n as int]@.contains_key(#[trigger] handles[i])
            && states[n as int]@[handles[i]] == values[i] by {
            assert(states.drop_last().last() == states[n as int]);
            assert(handles.drop_last()[i] == handles[i]);
        }
        assert forall|i: int, j: int| 0 <= i < j < values.len() implies #[trigger] handles[i]
            != #[trigger] handles[j] by {
            assert(handles.drop_last()[i] == handles[i]);
            if j < n {
                assert(handles.drop_last()[j] == handles[j]);
            } else {
                assert(states[n as int]@.contains_key(handles[i]));
            }
        }
    }
}

/// Handles after a purge depend on the order of insertion alone: the `i`-th insert into an
/// emptied arena returns handle `i`.
pub proof fn lemma_handles_after_purge<T>(states: Seq<Arena<T>>, handles: Seq<usize>, values: Seq<T>)
    requires
        insert_run(states, handles, values),
        states[0]@ == Map::<usize, T>::empty(),
    ensures
        forall|i: int| 0 <= i < values.len() ==> #[trigger] handles[i] == i,
        states.last().holds_prefix(values.len()),
    decreases values.len(),
{
    if values.len() == 0 {
        assert(states.last() == states[0]);
    } else {
        let n = values.len() - 1;
        assert(insert_run(states.drop_last(), handles.drop_last(), values.drop_last())) by {
            assert forall|i: int| 0 <= i < n implies inserted(
                #[trigger] states.drop_last()[i],
                states.drop_last()[i + 1],
                handles.drop_last()[i],
                values.drop_last()[i],
            ) by {
                assert(inserted(states[i], states[i + 1], handles[i], values[i]));
            }
        }
        lemma_handles_after_purge(states.drop_last(), handles.drop_last(), values.drop_last());
        assert(states.drop_last().last() == states[n as int]);
        assert(inserted(states[n as int], states[n + 1], handles[n as int], values[n as int]));
        assert(handles[n as int] == n);
        assert forall|i: int| 0 <= i < n implies #[trigger] handles[i] == i by {
            assert(handles.drop_last()[i] == handles[i]);
        }
        assert forall|h: usize| #[trigger] states.last()@.contains_key(h) <==> h < values.len() by {
            assert(states.last() == states[n + 1]);
        }
    }
}

} // verus!
