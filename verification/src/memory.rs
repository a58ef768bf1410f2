//! Memory management: a bump arena, a fixed-capacity object pool and a
//! generational pool whose handles detect stale references.
use vstd::prelude::*;

verus! {

// ---------------------------------------------------------------------------
// Arena
// ---------------------------------------------------------------------------

/// Abstract state of an [`Arena`]: its size in bytes, the offset of the
/// first byte not yet handed out, and the bytes of its buffer.
pub struct ArenaView {
    pub capacity: nat,
    pub offset: nat,
    pub data: Seq<u8>,
}

/// `data` with the bytes of `src` written from position `offset` on.
pub open spec fn overwritten(data: Seq<u8>, offset: int, src: Seq<u8>) -> Seq<u8> {
    Seq::new(
        data.len(),
        |k: int|
            if offset <= k < offset + src.len() {
                src[k - offset]
            } else {
                data[k]
            },
    )
}

/// Bytes needed after `offset` to reach a multiple of `align`.
pub open spec fn align_padding(offset: nat, align: nat) -> nat {
    ((align as int - (offset % align) as int) % (align as int)) as nat
}

impl ArenaView {
    /// The offset of a block of `size` bytes aligned to `align`, if it fits.
    pub open spec fn placement(self, size: nat, align: nat) -> Option<nat> {
        let start = self.offset + align_padding(self.offset, align);
        if start + size > self.capacity {
            None
        } else {
            Some(start)
        }
    }
}

/// Arena allocator for fast, bulk allocations: hands out consecutive byte
/// ranges of one buffer, each at an offset aligned for its type (counted
/// from the buffer's start), and forgets them all at once on reset. The
/// buffer is read with `bytes` and written with `write_bytes`.
pub struct Arena {
    buffer: Vec<u8>,
    capacity: usize,
    offset: usize,
}

impl View for Arena {
    type V = ArenaView;

    closed spec fn view(&self) -> ArenaView {
        ArenaView { capacity: self.capacity as nat, offset: self.offset as nat, data: self.buffer@ }
    }
}

impl Arena {
    pub closed spec fn wf(&self) -> bool {
        &&& self.offset <= self.capacity
        &&& self.buffer@.len() == self.capacity
    }

    /// Creates an arena over a zero-filled buffer of `capacity` bytes; the
    /// offsets it hands out are counted from the buffer's start. The size
    /// must leave room for rounding up to a 16-byte layout.
    pub fn new(capacity: usize) -> (a: Self)
        requires
            capacity <= isize::MAX - 15,
        ensures
            a.wf(),
            a@ == (ArenaView {
                capacity: capacity as nat,
                offset: 0,
                data: Seq::new(capacity as nat, |k: int| 0u8),
            }),
    {
        let buffer: Vec<u8> = vec![0u8; capacity];
        let a = Self { buffer, capacity, offset: 0 };
        assert(a@.data =~= Seq::new(capacity as nat, |k: int| 0u8));
        a
    }

    /// Reserves room for `count` values of type `T` and returns the byte
    /// offset of that room inside the arena's buffer, or `None` when the
    /// arena has not enough space left.
    pub fn allocate<T>(&mut self, count: usize) -> (r: Option<usize>)
        requires
            old(self).wf(),
            vstd::layout::size_of::<T>() * count <= usize::MAX,
            old(self)@.offset + align_padding(old(self)@.offset, vstd::layout::align_of::<T>())
                + vstd::layout::size_of::<T>() * count <= usize::MAX,
        ensures
            final(self).wf(),
            final(self)@.capacity == old(self)@.capacity,
            final(self)@.data == old(self)@.data,
            vstd::layout::align_of::<T>() > 0,
            match r {
                Some(o) => {
                    &&& old(self)@.placement(
                        (vstd::layout::size_of::<T>() * count) as nat,
                        vstd::layout::align_of::<T>(),
                    ) == Some(o as nat)
                    &&& final(self)@.offset == o + vstd::layout::size_of::<T>() * count
                },
                None => {
                    &&& old(self)@.placement(
                        (vstd::layout::size_of::<T>() * count) as nat,
                        vstd::layout::align_of::<T>(),
                    ) is None
                    &&& final(self)@.offset == old(self)@.offset
                },
            },
    {
        vstd::layout::layout_for_type_is_valid::<T>();
        let size = core::mem::size_of::<T>() * count;
        let align = core::mem::align_of::<T>();
        let padding = (align - (self.offset % align)) % align;
        let aligned_offset = self.offset + padding;
        if aligned_offset + size > self.capacity {
            return None;
        }
        self.offset = aligned_offset + size;
        Some(aligned_offset)
    }

    /// Forgets every allocation; the memory is kept for reuse.
    pub fn reset(&mut self)
        requires
            old(self).wf(),
        ensures
            final(self).wf(),
            final(self)@ == (ArenaView { offset: 0, ..old(self)@ }),
    {
        self.offset = 0;
    }

    /// Bytes handed out since creation or the last reset (padding included).
    pub fn used(&self) -> (r: usize)
        ensures
            r == self@.offset,
    {
        self.offset
    }

    /// The arena's buffer: the byte at offset `o` is the one that an
    /// allocation placed at `o` starts with.
    pub fn bytes(&self) -> (r: &[u8])
        ensures
            r@ == self@.data,
    {
        self.buffer.as_slice()
    }

    /// Writes `src` into the buffer from byte offset `offset` on, such as
    /// into the room that `allocate` returned.
    pub fn write_bytes(&mut self, offset: usize, src: &[u8])
        requires
            old(self).wf(),
            offset + src@.len() <= old(self)@.capacity,
        ensures
            final(self).wf(),
            final(self)@ == (ArenaView {
                data: overwritten(old(self)@.data, offset as int, src@),
                ..old(self)@
            }),
    {
        let mut j: usize = 0;
        while j < src.len()
            invariant
                j <= src@.len(),
                offset + src@.len() <= self.capacity,
                self.capacity == old(self).capacity,
                self.offset == old(self).offset,
                self.wf(),
                self.buffer@ =~= overwritten(old(self)@.data, offset as int, src@.subrange(0, j as int)),
            decreases src@.len() - j,
        {
            self.buffer.set(offset + j, src[j]);
            j = j + 1;
            assert(self.buffer@ =~= overwritten(old(self)@.data, offset as int, src@.subrange(0, j as int)));
        }
        assert(src@.subrange(0, src@.len() as int) =~= src@);
    }

    /// Bytes still free at the end of the buffer.
    pub fn available(&self) -> (r: usize)
        requires
            self.wf(),
        ensures
            r == self@.capacity - self@.offset,
    {
        self.capacity - self.offset
    }
}

// ---------------------------------------------------------------------------
// Free stacks shared by both pools
// ---------------------------------------------------------------------------

/// `free` lists exactly the empty positions of `slots`, each once, and every
/// position fits in a `usize`.
pub open spec fn free_stack_wf<T>(slots: Seq<Option<T>>, free: Seq<usize>) -> bool {
    &&& slots.len() <= usize::MAX
    &&& free.no_duplicates()
    &&& forall|k: int| 0 <= k < free.len() ==> {
        &&& (#[trigger] free[k]) < slots.len()
        &&& slots[free[k] as int] is None
    }
    &&& forall|i: int| 0 <= i < slots.len() && (#[trigger] slots[i]) is None
        ==> free.contains(i as usize)
}

/// Filling the slot on top of the free stack and popping it keeps the stack
/// well formed.
pub proof fn lemma_take_free_slot<T>(slots: Seq<Option<T>>, free: Seq<usize>, value: T)
    requires
        free_stack_wf(slots, free),
        free.len() > 0,
    ensures
        free_stack_wf(slots.update(free.last() as int, Some(value)), free.drop_last()),
{
    let index = free.last();
    let ns = slots.update(index as int, Some(value));
    let nf = free.drop_last();
    assert forall|k: int| 0 <= k < nf.len() implies {
        &&& (#[trigger] nf[k]) < ns.len()
        &&& ns[nf[k] as int] is None
    } by {
        assert(nf[k] == free[k]);
        assert(free[k] != free[free.len() - 1]);
    }
    assert forall|i: int| 0 <= i < ns.len() && (#[trigger] ns[i]) is None implies nf.contains(
        i as usize,
    ) by {
        assert(i != index as int);
        assert((i as usize) as int == i);
        assert(slots[i] is None);
        let k = choose|k: int| 0 <= k < free.len() && free[k] == i as usize;
        assert(k != free.len() - 1);
        assert(nf[k] == i as usize);
    }
}

/// Emptying an occupied slot and pushing its index keeps the stack well
/// formed.
pub proof fn lemma_return_slot<T>(slots: Seq<Option<T>>, free: Seq<usize>, index: usize)
    requires
        free_stack_wf(slots, free),
        index < slots.len(),
        slots[index as int] is Some,
    ensures
        free_stack_wf(slots.update(index as int, None), free.push(index)),
{
    let ns = slots.update(index as int, None);
    let nf = free.push(index);
    assert(!free.contains(index)) by {
        if free.contains(index) {
            let k = choose|k: int| 0 <= k < free.len() && free[k] == index;
            assert(slots[free[k] as int] is None);
        }
    }
    assert forall|a: int, b: int| 0 <= a < nf.len() && 0 <= b < nf.len() && a != b implies nf[a]
        != nf[b] by {
        if a == free.len() {
            assert(nf[b] == free[b]);
        } else if b == free.len() {
            assert(nf[a] == free[a]);
        }
    }
    assert forall|k: int| 0 <= k < nf.len() implies {
        &&& (#[trigger] nf[k]) < ns.len()
        &&& ns[nf[k] as int] is None
    } by {
        if k < free.len() {
            assert(nf[k] == free[k]);
        }
    }
    assert forall|i: int| 0 <= i < ns.len() && (#[trigger] ns[i]) is None implies nf.contains(
        i as usize,
    ) by {
        if i == index {
            assert(nf[free.len() as int] == index);
        } else {
            assert(slots[i] is None);
            let k = choose|k: int| 0 <= k < free.len() && free[k] == i as usize;
            assert(nf[k] == i as usize);
        }
    }
}

/// A well-formed free stack is no longer than the slot sequence.
pub proof fn lemma_free_len_bound<T>(slots: Seq<Option<T>>, free: Seq<usize>)
    requires
        free_stack_wf(slots, free),
    ensures
        free.len() <= slots.len(),
{
    let f = free.map_values(|x: usize| x as int);
    assert(f.no_duplicates()) by {
        assert forall|a: int, b: int| 0 <= a < f.len() && 0 <= b < f.len() && a != b implies f[a]
            != f[b] by {
            assert(free[a] != free[b]);
        }
    }
    f.unique_seq_to_set();
    let r = vstd::set_lib::set_int_range(0, slots.len() as int);
    vstd::set_lib::lemma_int_range(0, slots.len() as int);
    assert(f.to_set().subset_of(r)) by {
        assert forall|x: int| f.to_set().contains(x) implies r.contains(x) by {
            let k = choose|k: int| 0 <= k < f.len() && f[k] == x;
            assert(free[k] < slots.len());
        }
    }
    vstd::set_lib::lemma_len_subset(f.to_set(), r);
}

/// Filling slot `index`, whether it was empty or not, and taking `index` off
/// the free stack keeps the stack well formed.
pub proof fn lemma_place_slot<T>(slots: Seq<Option<T>>, free: Seq<usize>, index: usize, value: T)
    requires
        free_stack_wf(slots, free),
        index < slots.len(),
    ensures
        free_stack_wf(slots.update(index as int, Some(value)), free.remove_value(index)),
{
    free.index_of_first_ensures(index);
    match free.index_of_first(index) {
        None => {
            lemma_replace_occupied(slots, free, index as int, value);
        },
        Some(p) => {
            let ns = slots.update(index as int, Some(value));
            let nf = free.remove(p);
            assert(nf == free.remove_value(index));
            assert forall|a: int, b: int| 0 <= a < nf.len() && 0 <= b < nf.len() && a != b implies nf[a]
                != nf[b] by {
                let fa = if a < p { a } else { a + 1 };
                let fb = if b < p { b } else { b + 1 };
                assert(nf[a] == free[fa]);
                assert(nf[b] == free[fb]);
            }
            assert forall|k: int| 0 <= k < nf.len() implies {
                &&& (#[trigger] nf[k]) < ns.len()
                &&& ns[nf[k] as int] is None
            } by {
                let fk = if k < p { k } else { k + 1 };
                assert(nf[k] == free[fk]);
                assert(free[fk] != free[p]);
            }
            assert forall|i: int| 0 <= i < ns.len() && (#[trigger] ns[i]) is None implies nf.contains(
                i as usize,
            ) by {
                assert(i != index as int);
                assert(slots[i] is None);
                let k = choose|k: int| 0 <= k < free.len() && free[k] == i as usize;
                assert(k != p);
                if k < p {
                    assert(nf[k] == i as usize);
                } else {
                    assert(nf[k - 1] == i as usize);
                }
            }
        },
    }
}

/// Replacing the object in an occupied slot keeps the stack well formed.
pub proof fn lemma_replace_occupied<T>(slots: Seq<Option<T>>, free: Seq<usize>, index: int, value: T)
    requires
        free_stack_wf(slots, free),
        0 <= index < slots.len(),
        slots[index] is Some,
    ensures
        free_stack_wf(slots.update(index, Some(value)), free),
{
    let ns = slots.update(index, Some(value));
    assert forall|k: int| 0 <= k < free.len() implies {
        &&& (#[trigger] free[k]) < ns.len()
        &&& ns[free[k] as int] is None
    } by {
        assert(slots[free[k] as int] is None);
    }
    assert forall|i: int| 0 <= i < ns.len() && (#[trigger] ns[i]) is None implies free.contains(
        i as usize,
    ) by {
        assert(slots[i] is None);
    }
}

/// `occupied_prefix` only looks at the first `m` slots.
proof fn lemma_occupied_prefix_agree<T>(a: Seq<Option<T>>, b: Seq<Option<T>>, m: int)
    requires
        0 <= m <= a.len(),
        m <= b.len(),
        forall|j: int| 0 <= j < m ==> a[j] == b[j],
    ensures
        occupied_prefix(a, m) == occupied_prefix(b, m),
    decreases m,
{
    if m > 0 {
        lemma_occupied_prefix_agree(a, b, m - 1);
    }
}

/// The indices `occupied_prefix(s, m)` lists are below `m`, occupied, and
/// increasing.
proof fn lemma_occupied_prefix_bound<T>(s: Seq<Option<T>>, m: int)
    requires
        0 <= m <= s.len(),
        m <= usize::MAX,
    ensures
        forall|k: int|
            0 <= k < occupied_prefix(s, m).len() ==> {
                &&& (#[trigger] occupied_prefix(s, m)[k]) < m
                &&& s[occupied_prefix(s, m)[k] as int] is Some
            },
    decreases m,
{
    if m > 0 {
        lemma_occupied_prefix_bound(s, m - 1);
    }
}

/// Every occupied slot among the first `m` is listed by `occupied_prefix`.
proof fn lemma_occupied_prefix_complete<T>(s: Seq<Option<T>>, m: int, i: int)
    requires
        0 <= i < m <= s.len(),
        m <= usize::MAX,
        s[i] is Some,
    ensures
        occupied_prefix(s, m).contains(i as usize),
    decreases m,
{
    if i < m - 1 {
        lemma_occupied_prefix_complete(s, m - 1, i);
        let p = occupied_prefix(s, m - 1);
        let k = choose|k: int| 0 <= k < p.len() && p[k] == i as usize;
        assert(occupied_prefix(s, m)[k] == i as usize);
    } else {
        assert(occupied_prefix(s, m).last() == i as usize);
    }
}

/// `a` and `b` have the same length and the same occupied slots.
pub open spec fn same_occupancy<T>(a: Seq<Option<T>>, b: Seq<Option<T>>) -> bool {
    &&& a.len() == b.len()
    &&& forall|i: int| 0 <= i < a.len() ==> (a[i] is Some <==> #[trigger] b[i] is Some)
}

/// Keeping the occupied slots occupied and the empty ones empty keeps the
/// free stack well formed.
pub broadcast proof fn lemma_same_occupancy_wf<T>(a: Seq<Option<T>>, b: Seq<Option<T>>, free: Seq<usize>)
    ensures
        #[trigger] same_occupancy(a, b) && free_stack_wf(a, free) ==> #[trigger] free_stack_wf(b, free),
{
    if same_occupancy(a, b) && free_stack_wf(a, free) {
        assert forall|k: int| 0 <= k < free.len() implies {
            &&& (#[trigger] free[k]) < b.len()
            &&& b[free[k] as int] is None
        } by {
            assert(a[free[k] as int] is None);
        }
        assert forall|i: int| 0 <= i < b.len() && (#[trigger] b[i]) is None implies free.contains(
            i as usize,
        ) by {
            assert(a[i] is None);
        }
    }
}

/// Mutable references to the objects of the occupied slots, with their
/// positions, by increasing position.
fn occupied_mut<'a, T>(slots: &'a mut [Option<T>]) -> (r: Vec<(usize, &'a mut T)>)
    ensures
        r@.len() == occupied(old(slots)@).len(),
        forall|k: int|
            0 <= k < r@.len() ==> {
                &&& (#[trigger] r@[k]).0 == occupied(old(slots)@)[k]
                &&& old(slots)@[r@[k].0 as int] == Some(*r@[k].1)
                &&& final(slots)@[r@[k].0 as int] == Some(*final(r@[k].1))
            },
        same_occupancy(old(slots)@, final(slots)@),
    decreases old(slots)@.len(),
{
    let n = slots.len();
    if n == 0 {
        return Vec::new();
    }
    let ghost s0 = slots@;
    let (init, last) = slots.split_at_mut(n - 1);
    let ghost i0 = init@;
    let mut out = occupied_mut(init);
    proof {
        assert(i0 =~= s0.subrange(0, n - 1));
        assert(s0.subrange(0, n - 1) =~= s0.subrange(0, (n - 1) as int));
    }
    let slot = last.first_mut().unwrap();
    match slot.as_mut() {
        Some(v) => {
            let ghost vv = *v;
            out.push((n - 1, v));
            proof {
                assert(*out@[out@.len() - 1].1 == vv);
            }
        },
        None => {},
    }
    proof {
        lemma_occupied_prefix_agree(s0, i0, (n - 1) as int);
        lemma_occupied_prefix_bound(i0, (n - 1) as int);
        assert(occupied(i0) == occupied_prefix(i0, (n - 1) as int));
    }
    out
}

/// The free stack of a fresh pool of `capacity` slots is well formed.
pub proof fn lemma_fresh_stack<T>(capacity: usize)
    ensures
        free_stack_wf(
            Seq::new(capacity as nat, |i: int| None::<T>),
            Seq::new(capacity as nat, |k: int| (capacity - 1 - k) as usize),
        ),
{
    let slots = Seq::new(capacity as nat, |i: int| None::<T>);
    let free = Seq::new(capacity as nat, |k: int| (capacity - 1 - k) as usize);
    assert forall|a: int, b: int| 0 <= a < free.len() && 0 <= b < free.len() && a != b implies free[a]
        != free[b] by {}
    assert forall|j: int| 0 <= j < slots.len() && (#[trigger] slots[j]) is None implies free.contains(
        j as usize,
    ) by {
        let k = capacity - 1 - j;
        assert(free[k] == j as usize);
    }
}

// ---------------------------------------------------------------------------
// Pool
// ---------------------------------------------------------------------------

/// Abstract state of a [`Pool`]: the slots, and the stack of free slot
/// indices (the last element is handed out first).
pub struct PoolView<T> {
    pub slots: Seq<Option<T>>,
    pub free: Seq<usize>,
}

impl<T> PoolView<T> {
    /// The free stack lists exactly the empty slots, each once.
    pub open spec fn wf(self) -> bool {
        free_stack_wf(self.slots, self.free)
    }

    /// Number of occupied slots.
    pub open spec fn used(self) -> int {
        self.slots.len() - self.free.len()
    }

    /// The state after storing `value`, and the index that receives it.
    pub open spec fn allocate(self, value: T) -> (PoolView<T>, Option<usize>) {
        if self.free.len() == 0 {
            (self, None)
        } else {
            let i = self.free.last();
            (
                PoolView { slots: self.slots.update(i as int, Some(value)), free: self.free.drop_last() },
                Some(i),
            )
        }
    }

    /// The state after releasing slot `index`; nothing changes for an index
    /// that is out of range or already empty.
    pub open spec fn free_slot(self, index: usize) -> PoolView<T> {
        if index < self.slots.len() && self.slots[index as int] is Some {
            PoolView { slots: self.slots.update(index as int, None), free: self.free.push(index) }
        } else {
            self
        }
    }

    /// The value stored at `index`, if any.
    pub open spec fn get(self, index: usize) -> Option<T> {
        if index < self.slots.len() {
            self.slots[index as int]
        } else {
            None
        }
    }
}

/// The state of a pool freshly created with `capacity` slots.
pub open spec fn pool_new_view<T>(capacity: nat) -> PoolView<T> {
    PoolView {
        slots: Seq::new(capacity, |i: int| None::<T>),
        free: Seq::new(capacity, |k: int| (capacity - 1 - k) as usize),
    }
}

/// Indices of the occupied slots among the first `n`, in increasing order.
pub open spec fn occupied_prefix<T>(slots: Seq<Option<T>>, n: int) -> Seq<usize>
    decreases n,
{
    if n <= 0 {
        Seq::empty()
    } else {
        let rest = occupied_prefix(slots, n - 1);
        if slots[n - 1] is Some {
            rest.push((n - 1) as usize)
        } else {
            rest
        }
    }
}

/// Indices of all occupied slots, in increasing order.
pub open spec fn occupied<T>(slots: Seq<Option<T>>) -> Seq<usize> {
    occupied_prefix(slots, slots.len() as int)
}

/// Pool allocator for fixed-size objects.
pub struct Pool<T> {
    slots: Vec<Option<T>>,
    free_list: Vec<usize>,
}

impl<T> View for Pool<T> {
    type V = PoolView<T>;

    closed spec fn view(&self) -> PoolView<T> {
        PoolView { slots: self.slots@, free: self.free_list@ }
    }
}

impl<T> Pool<T> {
    pub open spec fn wf(&self) -> bool {
        self@.wf()
    }

    /// Creates a pool with `capacity` empty slots; the lowest index is
    /// handed out first.
    pub fn new(capacity: usize) -> (pool: Self)
        ensures
            pool.wf(),
            pool@ == pool_new_view::<T>(capacity as nat),
    {
        let mut slots: Vec<Option<T>> = Vec::with_capacity(capacity);
        let mut free_list: Vec<usize> = Vec::with_capacity(capacity);
        let mut i: usize = 0;
        while i < capacity
            invariant
                i <= capacity,
                slots@ =~= Seq::new(i as nat, |j: int| None::<T>),
                free_list@ =~= Seq::new(i as nat, |k: int| (capacity - 1 - k) as usize),
            decreases capacity - i,
        {
            slots.push(None);
            free_list.push(capacity - i - 1);
            i = i + 1;
        }
        let pool = Self { slots, free_list };
        proof {
            lemma_fresh_stack::<T>(capacity);
            assert(pool@ == pool_new_view::<T>(capacity as nat));
        }
        pool
    }

    /// Stores `value` in a free slot and returns its index, or `None` when
    /// the pool is full.
    pub fn allocate(&mut self, value: T) -> (r: Option<usize>)
        requires
            old(self).wf(),
        ensures
            final(self).wf(),
            (final(self)@, r) == old(self)@.allocate(value),
    {
        match self.free_list.pop() {
            Some(index) => {
                proof {
                    assert(old(self)@.free[old(self)@.free.len() - 1] == index);
                    lemma_take_free_slot(old(self)@.slots, old(self)@.free, value);
                }
                self.slots.set(index, Some(value));
                proof {
                    assert(old(self)@.free.drop_last() =~= self@.free);
                }
                Some(index)
            },
            None => None,
        }
    }

    /// Releases slot `index`; out-of-range or empty slots are left alone.
    pub fn free(&mut self, index: usize)
        requires
            old(self).wf(),
        ensures
            final(self).wf(),
            final(self)@ == old(self)@.free_slot(index),
    {
        if index < self.slots.len() && self.slots[index].is_some() {
            proof {
                lemma_return_slot(old(self)@.slots, old(self)@.free, index);
            }
            self.slots.set(index, None);
            self.free_list.push(index);
        }
    }

    /// The object stored at `index`, if any.
    pub fn get(&self, index: usize) -> (r: Option<&T>)
        ensures
            match r {
                Some(v) => self@.get(index) == Some(*v),
                None => self@.get(index) is None,
            },
    {
        if index < self.slots.len() {
            self.slots[index].as_ref()
        } else {
            None
        }
    }

    /// Mutable access to the object stored at `index`, if any.
    pub fn get_mut(&mut self, index: usize) -> (r: Option<&mut T>)
        ensures
            match r {
                Some(v) => {
                    &&& old(self)@.get(index) == Some(*v)
                    &&& final(self)@.slots == old(self)@.slots.update(index as int, Some(*final(v)))
                    &&& final(self)@.free == old(self)@.free
                },
                None => {
                    &&& old(self)@.get(index) is None
                    &&& final(self)@.slots == old(self)@.slots
                    &&& final(self)@.free == old(self)@.free
                },
            },
            old(self).wf() ==> final(self).wf(),
    {
        if index < self.slots.len() {
            let slot = &mut self.slots[index];
            proof {
                if old(self).wf() && slot.is_some() {
                    assert forall|x: T| #![auto] free_stack_wf(old(self)@.slots.update(index as int, Some(x)), old(self)@.free) by {
                        lemma_replace_occupied(old(self)@.slots, old(self)@.free, index as int, x);
                    }
                }
            }
            slot.as_mut()
        } else {
            None
        }
    }

    /// All occupied slots as `(index, object)` pairs, by increasing index.
    pub fn iter(&self) -> (r: Vec<(usize, &T)>)
        ensures
            r@.len() == occupied(self@.slots).len(),
            forall|k: int|
                0 <= k < r@.len() ==> {
                    &&& (#[trigger] r@[k]).0 == occupied(self@.slots)[k]
                    &&& self@.slots[r@[k].0 as int] == Some(*r@[k].1)
                },
    {
        let mut r: Vec<(usize, &T)> = Vec::new();
        let mut i: usize = 0;
        while i < self.slots.len()
            invariant
                i <= self.slots@.len(),
                r@.len() == occupied_prefix(self.slots@, i as int).len(),
                forall|k: int|
                    0 <= k < r@.len() ==> {
                        &&& (#[trigger] r@[k]).0 == occupied_prefix(self.slots@, i as int)[k]
                        &&& self.slots@[r@[k].0 as int] == Some(*r@[k].1)
                    },
            decreases self.slots@.len() - i,
        {
            match self.slots[i].as_ref() {
                Some(v) => {
                    r.push((i, v));
                },
                None => {},
            }
            i = i + 1;
        }
        r
    }

    /// Mutable references to all occupied slots' objects as
    /// `(index, object)` pairs, by increasing index.
    pub fn iter_mut(&mut self) -> (r: Vec<(usize, &mut T)>)
        ensures
            r@.len() == occupied(old(self)@.slots).len(),
            forall|k: int|
                0 <= k < r@.len() ==> {
                    &&& (#[trigger] r@[k]).0 == occupied(old(self)@.slots)[k]
                    &&& old(self)@.slots[r@[k].0 as int] == Some(*r@[k].1)
                    &&& final(self)@.slots[r@[k].0 as int] == Some(*final(r@[k].1))
                },
            same_occupancy(old(self)@.slots, final(self)@.slots),
            final(self)@.free == old(self)@.free,
            old(self).wf() ==> final(self).wf(),
    {
        proof {
            broadcast use lemma_same_occupancy_wf;
        }
        let r = occupied_mut(self.slots.as_mut_slice());
        r
    }

    pub fn capacity(&self) -> (r: usize)
        ensures
            r == self@.slots.len(),
    {
        self.slots.len()
    }

    /// Number of occupied slots.
    pub fn used(&self) -> (r: usize)
        requires
            self.wf(),
        ensures
            r == self@.used(),
    {
        proof {
            lemma_free_len_bound(self@.slots, self@.free);
        }
        self.slots.len() - self.free_list.len()
    }
}


// ---------------------------------------------------------------------------
// Handles and the generational pool
// ---------------------------------------------------------------------------

/// Handle for referencing pool objects safely: a slot index and the
/// generation the slot had when the object was stored.
#[derive(Debug, Clone, Copy, PartialEq, Eq, Hash, Structural)]
pub struct Handle {
    pub index: usize,
    pub generation: u32,
}

impl Handle {
    /// The handle that refers to nothing.
    pub fn invalid() -> (h: Self)
        ensures
            h.index == usize::MAX,
            h.generation == 0,
    {
        Self { index: usize::MAX, generation: 0 }
    }

    pub fn new(index: usize, generation: u32) -> (h: Self)
        ensures
            h.index == index,
            h.generation == generation,
    {
        Self { index, generation }
    }

    /// Whether this handle differs from [`Handle::invalid`].
    pub fn is_valid(&self) -> (r: bool)
        ensures
            r == !(self.index == usize::MAX && self.generation == 0),
    {
        *self != Self::invalid()
    }
}

/// Abstract state of a [`GenerationalPool`]: per slot its object and its
/// generation, and the stack of free slot indices.
pub struct GenerationalPoolView<T> {
    pub values: Seq<Option<T>>,
    pub generations: Seq<u32>,
    pub free: Seq<usize>,
}

impl<T> GenerationalPoolView<T> {
    pub open spec fn wf(self) -> bool {
        &&& free_stack_wf(self.values, self.free)
        &&& self.generations.len() == self.values.len()
    }

    /// Whether `handle` names a slot whose generation it carries.
    pub open spec fn matches(self, handle: Handle) -> bool {
        &&& handle.index < self.values.len()
        &&& self.generations[handle.index as int] == handle.generation
    }

    /// The state after storing `value`, and the handle that refers to it.
    pub open spec fn allocate(self, value: T) -> (GenerationalPoolView<T>, Option<Handle>) {
        if self.free.len() == 0 {
            (self, None)
        } else {
            let i = self.free.last();
            (
                GenerationalPoolView {
                    values: self.values.update(i as int, Some(value)),
                    generations: self.generations,
                    free: self.free.drop_last(),
                },
                Some(Handle { index: i, generation: self.generations[i as int] }),
            )
        }
    }

    /// Whether releasing `handle` succeeds: it names a live object.
    pub open spec fn can_release(self, handle: Handle) -> bool {
        self.matches(handle) && self.values[handle.index as int] is Some
    }

    /// The state after releasing `handle`: the object is dropped, the slot's
    /// generation advances (wrapping) and the slot becomes free. A handle
    /// that names no live object changes nothing.
    pub open spec fn release(self, handle: Handle) -> GenerationalPoolView<T> {
        if self.can_release(handle) {
            GenerationalPoolView {
                values: self.values.update(handle.index as int, None),
                generations: self.generations.update(
                    handle.index as int,
                    next_generation(self.generations[handle.index as int]),
                ),
                free: self.free.push(handle.index),
            }
        } else {
            self
        }
    }

    /// The state after storing `value` under `handle` itself: the slot
    /// `handle.index` holds `value` with `handle`'s generation and leaves the
    /// free stack. A handle out of range changes nothing.
    pub open spec fn insert(self, handle: Handle, value: T) -> GenerationalPoolView<T> {
        if handle.index < self.values.len() {
            GenerationalPoolView {
                values: self.values.update(handle.index as int, Some(value)),
                generations: self.generations.update(handle.index as int, handle.generation),
                free: self.free.remove_value(handle.index),
            }
        } else {
            self
        }
    }

    /// The object `handle` refers to, if it is still live.
    pub open spec fn get(self, handle: Handle) -> Option<T> {
        if self.matches(handle) {
            self.values[handle.index as int]
        } else {
            None
        }
    }
}

/// The generation after `g`, wrapping around after `u32::MAX`.
pub open spec fn next_generation(g: u32) -> u32 {
    if g == u32::MAX {
        0
    } else {
        (g + 1) as u32
    }
}

/// The state of a generational pool freshly created with `capacity` slots.
pub open spec fn generational_new_view<T>(capacity: nat) -> GenerationalPoolView<T> {
    GenerationalPoolView {
        values: Seq::new(capacity, |i: int| None::<T>),
        generations: Seq::new(capacity, |i: int| 0u32),
        free: Seq::new(capacity, |k: int| (capacity - 1 - k) as usize),
    }
}

struct PoolSlot<T> {
    value: Option<T>,
    generation: u32,
}

/// Generational pool: handles are validated against slot generations.
pub struct GenerationalPool<T> {
    slots: Vec<PoolSlot<T>>,
    free_list: Vec<usize>,
}

impl<T> View for GenerationalPool<T> {
    type V = GenerationalPoolView<T>;

    closed spec fn view(&self) -> GenerationalPoolView<T> {
        GenerationalPoolView {
            values: self.slots@.map_values(|s: PoolSlot<T>| s.value),
            generations: self.slots@.map_values(|s: PoolSlot<T>| s.generation),
            free: self.free_list@,
        }
    }
}

impl<T> GenerationalPool<T> {
    pub open spec fn wf(&self) -> bool {
        self@.wf()
    }

    /// Creates a pool with `capacity` empty slots of generation 0; the
    /// lowest index is handed out first.
    pub fn new(capacity: usize) -> (pool: Self)
        ensures
            pool.wf(),
            pool@ == generational_new_view::<T>(capacity as nat),
    {
        let mut slots: Vec<PoolSlot<T>> = Vec::with_capacity(capacity);
        let mut free_list: Vec<usize> = Vec::with_capacity(capacity);
        let mut i: usize = 0;
        while i < capacity
            invariant
                i <= capacity,
                slots@.len() == i,
                forall|j: int| 0 <= j < i ==> (#[trigger] slots@[j]).value is None && slots@[j].generation == 0,
                free_list@ =~= Seq::new(i as nat, |k: int| (capacity - 1 - k) as usize),
            decreases capacity - i,
        {
            slots.push(PoolSlot { value: None, generation: 0 });
            free_list.push(capacity - i - 1);
            i = i + 1;
        }
        let pool = Self { slots, free_list };
        proof {
            lemma_fresh_stack::<T>(capacity);
            assert(pool@.values =~= generational_new_view::<T>(capacity as nat).values);
            assert(pool@.generations =~= generational_new_view::<T>(capacity as nat).generations);
        }
        pool
    }

    /// Stores `value` and returns a handle to it, or `None` when full.
    pub fn allocate(&mut self, value: T) -> (r: Option<Handle>)
        requires
            old(self).wf(),
        ensures
            final(self).wf(),
            (final(self)@, r) == old(self)@.allocate(value),
    {
        match self.free_list.pop() {
            Some(index) => {
                proof {
                    assert(old(self)@.free[old(self)@.free.len() - 1] == index);
                    lemma_take_free_slot(old(self)@.values, old(self)@.free, value);
                }
                let generation = self.slots[index].generation;
                self.slots.set(index, PoolSlot { value: Some(value), generation });
                proof {
                    assert(old(self)@.free.drop_last() =~= self@.free);
                    assert(self@.values =~= old(self)@.values.update(index as int, Some(value)));
                    assert(self@.generations =~= old(self)@.generations);
                }
                Some(Handle::new(index, generation))
            },
            None => None,
        }
    }

    /// Releases the object `handle` refers to. Returns `false`, changing
    /// nothing, when the handle is stale, out of range or already released.
    pub fn free(&mut self, handle: Handle) -> (r: bool)
        requires
            old(self).wf(),
        ensures
            final(self).wf(),
            r == old(self)@.can_release(handle),
            final(self)@ == old(self)@.release(handle),
    {
        if handle.index < self.slots.len() {
            let generation = self.slots[handle.index].generation;
            if generation == handle.generation && self.slots[handle.index].value.is_some() {
                proof {
                    lemma_return_slot(old(self)@.values, old(self)@.free, handle.index);
                }
                self.slots.set(
                    handle.index,
                    PoolSlot { value: None, generation: generation.wrapping_add(1) },
                );
                self.free_list.push(handle.index);
                proof {
                    let o = old(self)@;
                    let n = self@;
                    assert(n.values =~= o.values.update(handle.index as int, None));
                    assert(n.generations =~= o.generations.update(
                        handle.index as int,
                        next_generation(o.generations[handle.index as int]),
                    ));
                }
                return true;
            }
        }
        false
    }

    /// Stores `value` under `handle` itself, so that `get(handle)` finds it:
    /// the slot takes the value and the handle's generation, replacing what
    /// it held, and is no longer free. Returns `false`, changing nothing,
    /// when the handle's index is out of range.
    pub fn insert(&mut self, handle: Handle, value: T) -> (r: bool)
        requires
            old(self).wf(),
        ensures
            final(self).wf(),
            r == (handle.index < old(self)@.values.len()),
            final(self)@ == old(self)@.insert(handle, value),
            r ==> final(self)@.get(handle) == Some(value),
    {
        if handle.index < self.slots.len() {
            if self.slots[handle.index].value.is_none() {
                let mut p: usize = 0;
                while p < self.free_list.len() && self.free_list[p] != handle.index
                    invariant
                        self@ == old(self)@,
                        p <= self.free_list@.len(),
                        forall|j: int| 0 <= j < p ==> self.free_list@[j] != handle.index,
                    decreases self.free_list@.len() - p,
                {
                    p = p + 1;
                }
                proof {
                    assert(self@.values[handle.index as int] is None);
                    assert(self.free_list@.contains(handle.index));
                    self.free_list@.index_of_first_ensures(handle.index);
                    if p == self.free_list@.len() {
                        let k = choose|k: int| 0 <= k < self.free_list@.len() && self.free_list@[k] == handle.index;
                        assert(self.free_list@[k] != handle.index);
                    }
                    assert(self.free_list@.index_of_first(handle.index) == Some(p as int));
                }
                self.free_list.remove(p);
            } else {
                proof {
                    if self.free_list@.contains(handle.index) {
                        let k = choose|k: int| 0 <= k < self.free_list@.len() && self.free_list@[k] == handle.index;
                        assert(self@.values[self.free_list@[k] as int] is None);
                    }
                    self.free_list@.index_of_first_ensures(handle.index);
                }
            }
            proof {
                lemma_place_slot(old(self)@.values, old(self)@.free, handle.index, value);
            }
            self.slots.set(handle.index, PoolSlot { value: Some(value), generation: handle.generation });
            proof {
                let o = old(self)@;
                assert(self@.values =~= o.values.update(handle.index as int, Some(value)));
                assert(self@.generations =~= o.generations.update(handle.index as int, handle.generation));
            }
            true
        } else {
            false
        }
    }

    /// The object `handle` refers to, or `None` when the handle is stale or
    /// its slot is empty.
    pub fn get(&self, handle: Handle) -> (r: Option<&T>)
        ensures
            match r {
                Some(v) => self@.get(handle) == Some(*v),
                None => self@.get(handle) is None,
            },
    {
        if handle.index < self.slots.len() {
            let slot = &self.slots[handle.index];
            if slot.generation == handle.generation {
                slot.value.as_ref()
            } else {
                None
            }
        } else {
            None
        }
    }

    /// Mutable access to the object `handle` refers to.
    pub fn get_mut(&mut self, handle: Handle) -> (r: Option<&mut T>)
        ensures
            match r {
                Some(v) => {
                    &&& old(self)@.get(handle) == Some(*v)
                    &&& final(self)@.values == old(self)@.values.update(
                        handle.index as int,
                        Some(*final(v)),
                    )
                    &&& final(self)@.generations == old(self)@.generations
                    &&& final(self)@.free == old(self)@.free
                },
                None => {
                    &&& old(self)@.get(handle) is None
                    &&& final(self)@.values == old(self)@.values
                    &&& final(self)@.generations == old(self)@.generations
                    &&& final(self)@.free == old(self)@.free
                },
            },
            old(self).wf() ==> final(self).wf(),
    {
        if handle.index < self.slots.len() {
            let slot = &mut self.slots[handle.index];
            if slot.generation == handle.generation {
                proof {
                    if old(self).wf() && slot.value.is_some() {
                        assert forall|x: T| #![auto] free_stack_wf(old(self)@.values.update(handle.index as int, Some(x)), old(self)@.free) by {
                            lemma_replace_occupied(old(self)@.values, old(self)@.free, handle.index as int, x);
                        }
                    }
                }
                slot.value.as_mut()
            } else {
                None
            }
        } else {
            None
        }
    }
}

// ---------------------------------------------------------------------------
// Laws
// ---------------------------------------------------------------------------

/// A value stored in a pool is read back from the index that `allocate`
/// returned; allocation fails exactly when every slot is occupied.
pub proof fn law_pool_get_after_allocate<T>(v: PoolView<T>, value: T)
    requires
        v.wf(),
    ensures
        v.allocate(value).1 matches Some(i) ==> v.allocate(value).0.get(i) == Some(value),
        v.allocate(value).1 is None <==> v.used() == v.slots.len(),
{
}

/// After `free(i)` nothing is stored at `i`.
pub proof fn law_pool_get_after_free<T>(v: PoolView<T>, index: usize)
    requires
        v.wf(),
    ensures
        v.free_slot(index).get(index) is None,
{
}

/// The slot released last is the one handed out next.
pub proof fn law_pool_free_then_allocate_reuses<T>(v: PoolView<T>, index: usize, value: T)
    requires
        v.wf(),
        v.get(index) is Some,
    ensures
        v.free_slot(index).allocate(value).1 == Some(index),
{
}

/// Allocating and freeing keep every other slot's object unchanged.
pub proof fn law_pool_other_slots_unchanged<T>(v: PoolView<T>, index: usize, other: usize, value: T)
    requires
        v.wf(),
        index != other,
    ensures
        v.free_slot(index).get(other) == v.get(other),
        v.allocate(value).1 != Some(other) ==> v.allocate(value).0.get(other) == v.get(other),
{
}

/// A value stored in a generational pool is read back through the handle
/// that `allocate` returned, and that handle is never the invalid one.
pub proof fn law_generational_get_after_allocate<T>(v: GenerationalPoolView<T>, value: T)
    requires
        v.wf(),
    ensures
        v.allocate(value).1 matches Some(h) ==> {
            &&& v.allocate(value).0.get(h) == Some(value)
            &&& !(h.index == usize::MAX && h.generation == 0)
        },
        v.allocate(value).1 is None <==> v.free.len() == 0,
{
}

/// A released handle is stale: it reads nothing, a second release fails,
/// and it does not reach an object stored later in its old slot.
pub proof fn law_generational_stale_handle<T>(v: GenerationalPoolView<T>, h: Handle, value: T)
    requires
        v.wf(),
        v.can_release(h),
    ensures
        v.release(h).get(h) is None,
        !v.release(h).can_release(h),
        v.release(h).allocate(value).0.get(h) is None,
        v.release(h).wf(),
{
    lemma_return_slot(v.values, v.free, h.index);
}

/// A stale handle (one whose generation its slot no longer carries) stays
/// stale under any later operation: allocating never touches generations,
/// and a release only advances the generation of the slot it frees, so the
/// handle can match again only when that slot's generation wraps around to
/// the handle's own.
pub proof fn law_generational_stale_stays_stale<T>(
    v: GenerationalPoolView<T>,
    h: Handle,
    h2: Handle,
    value: T,
)
    requires
        v.wf(),
        !v.matches(h),
    ensures
        v.get(h) is None,
        !v.allocate(value).0.matches(h),
        v.allocate(value).0.get(h) is None,
        !(h2.index == h.index && v.can_release(h2) && next_generation(v.generations[h.index as int])
            == h.generation) ==> !v.release(h2).matches(h) && v.release(h2).get(h) is None,
{
}

/// A handle reads an object exactly when releasing it would succeed;
/// releasing a handle that names no live object changes nothing.
pub proof fn law_generational_get_iff_releasable<T>(v: GenerationalPoolView<T>, h: Handle)
    ensures
        v.get(h) is Some <==> v.can_release(h),
        !v.can_release(h) ==> v.release(h) == v,
{
}

/// Every block the arena hands out is aligned, lies within the buffer, and
/// the next block starts after it.
pub proof fn law_arena_placement(v: ArenaView, size: nat, align: nat, size2: nat)
    requires
        align > 0,
        v.offset <= v.capacity,
    ensures
        v.placement(size, align) matches Some(o) ==> {
            &&& o % align == 0
            &&& v.offset <= o
            &&& o + size <= v.capacity
            &&& (ArenaView { offset: o + size, ..v }).placement(size2, align) matches Some(o2)
                ==> o + size <= o2
        },
{
    let o = v.offset as int;
    let a = align as int;
    let p = align_padding(v.offset, align) as int;
    assert((o + p) % a == 0) by {
        vstd::arithmetic::div_mod::lemma_fundamental_div_mod(o, a);
        vstd::arithmetic::div_mod::lemma_mod_bound(o, a);
        let q = o / a;
        let r = o % a;
        if r == 0 {
            vstd::arithmetic::div_mod::lemma_mod_self_0(a);
            assert(p == 0);
        } else {
            vstd::arithmetic::div_mod::lemma_small_mod((a - r) as nat, a as nat);
            assert(p == a - r);
            assert(o + p == a * q + a);
            assert(a * q + a == (q + 1) * a) by (nonlinear_arith);
            vstd::arithmetic::div_mod::lemma_mod_multiples_basic(q + 1, a);
        }
    }
}

/// `occupied_prefix` lists strictly increasing indices.
proof fn lemma_occupied_prefix_increasing<T>(s: Seq<Option<T>>, m: int)
    requires
        0 <= m <= s.len(),
        m <= usize::MAX,
    ensures
        forall|a: int, b: int|
            0 <= a < b < occupied_prefix(s, m).len() ==> (#[trigger] occupied_prefix(s, m)[a])
                < #[trigger] occupied_prefix(s, m)[b],
    decreases m,
{
    if m > 0 {
        lemma_occupied_prefix_increasing(s, m - 1);
        lemma_occupied_prefix_bound(s, m - 1);
    }
}

/// A pool's `used()` count is the number of occupied slots.
pub proof fn law_pool_used_counts_objects<T>(v: PoolView<T>)
    requires
        v.wf(),
    ensures
        v.used() == occupied(v.slots).len(),
{
    let n = v.slots.len() as int;
    let occ = occupied(v.slots);
    lemma_occupied_prefix_bound(v.slots, n);
    lemma_occupied_prefix_increasing(v.slots, n);
    let o = occ.map_values(|x: usize| x as int);
    let f = v.free.map_values(|x: usize| x as int);
    assert(o.no_duplicates()) by {
        assert forall|a: int, b: int| 0 <= a < o.len() && 0 <= b < o.len() && a != b implies o[a]
            != o[b] by {
            if a < b {
                assert(occ[a] < occ[b]);
            } else {
                assert(occ[b] < occ[a]);
            }
        }
    }
    assert(f.no_duplicates()) by {
        assert forall|a: int, b: int| 0 <= a < f.len() && 0 <= b < f.len() && a != b implies f[a]
            != f[b] by {
            assert(v.free[a] != v.free[b]);
        }
    }
    o.unique_seq_to_set();
    f.unique_seq_to_set();
    let r = vstd::set_lib::set_int_range(0, n);
    vstd::set_lib::lemma_int_range(0, n);
    assert(o.to_set().disjoint(f.to_set())) by {
        assert forall|x: int| o.to_set().contains(x) implies !f.to_set().contains(x) by {
            let a = choose|a: int| 0 <= a < o.len() && o[a] == x;
            assert(v.slots[occ[a] as int] is Some);
            if f.to_set().contains(x) {
                let b = choose|b: int| 0 <= b < f.len() && f[b] == x;
                assert(v.slots[v.free[b] as int] is None);
            }
        }
    }
    assert(o.to_set() + f.to_set() =~= r) by {
        assert forall|x: int| r.contains(x) implies (o.to_set() + f.to_set()).contains(x) by {
            if v.slots[x] is Some {
                lemma_occupied_prefix_complete(v.slots, n, x);
                let a = choose|a: int| 0 <= a < occ.len() && occ[a] == x as usize;
                assert(o[a] == x);
            } else {
                let b = choose|b: int| 0 <= b < v.free.len() && v.free[b] == x as usize;
                assert(f[b] == x);
            }
        }
        assert forall|x: int| (o.to_set() + f.to_set()).contains(x) implies r.contains(x) by {
            if o.to_set().contains(x) {
                let a = choose|a: int| 0 <= a < o.len() && o[a] == x;
            } else {
                let b = choose|b: int| 0 <= b < f.len() && f[b] == x;
                assert(v.free[b] < n);
            }
        }
    }
    vstd::set_lib::lemma_len_subset(o.to_set(), r);
    vstd::set_lib::lemma_len_subset(f.to_set(), r);
    vstd::set_lib::lemma_set_disjoint_lens(o.to_set(), f.to_set());
}

/// An allocation succeeds exactly when the block fits: after padding the
/// offset up to the next multiple of the alignment (by less than one
/// alignment, and not at all when it is already a multiple), the block must
/// end at or before the arena's end. A block that ends exactly at the end
/// fits.
pub proof fn law_arena_fits(v: ArenaView, size: nat, align: nat)
    requires
        align > 0,
    ensures
        align_padding(v.offset, align) < align,
        v.offset % align == 0 ==> align_padding(v.offset, align) == 0,
        (v.offset + align_padding(v.offset, align) + size <= v.capacity) ==> v.placement(size, align)
            == Some(v.offset + align_padding(v.offset, align)),
        (v.offset + align_padding(v.offset, align) + size > v.capacity) ==> v.placement(size, align) is None,
        v.offset % align == 0 && v.offset + size == v.capacity ==> v.placement(size, align) == Some(v.offset),
{
    let o = v.offset as int;
    let a = align as int;
    vstd::arithmetic::div_mod::lemma_mod_bound(o, a);
    vstd::arithmetic::div_mod::lemma_mod_bound(a - o % a, a);
    if o % a == 0 {
        vstd::arithmetic::div_mod::lemma_mod_self_0(a);
    }
}

} // verus!
