//! Reference-counted persistent storage: id-keyed byte buffers that outlive
//! arena resets. Ids are monotone and never reused within a process.

use vstd::prelude::*;

verus! {

/// Identifier of a persistent tensor.
#[derive(Clone, Copy, Debug, PartialEq, Eq, Hash, Structural)]
pub struct TensorId(u64);

impl TensorId {
    /// The numeric id, in specifications.
    pub closed spec fn spec_id(self) -> u64 {
        self.0
    }
}

/// A persistent byte buffer. The backing capacity is rounded up to 16 bytes
/// for vector access; the declared size stays what the caller asked for.
#[derive(Debug)]
pub struct PersistentTensor {
    data: Vec<u8>,
    size: usize,
}

impl PersistentTensor {
    /// The backing bytes, in specifications.
    pub closed spec fn spec_data(&self) -> Seq<u8> {
        self.data@
    }

    /// The declared size, in specifications.
    pub closed spec fn spec_size(&self) -> usize {
        self.size
    }

    /// The declared size never exceeds the backing capacity.
    pub open spec fn wf(&self) -> bool {
        self.spec_size() <= self.spec_data().len()
    }

    /// A zero-initialised buffer of `size` declared bytes.
    pub fn new(size: usize) -> (r: PersistentTensor)
        requires
            size + 15 <= usize::MAX,
        ensures
            r.wf(),
            r.spec_size() == size,
            r.spec_data().len() == crate::utils::spec_align_up(size as int, 16),
            forall|i: int| 0 <= i < r.spec_data().len() ==> r.spec_data()[i] == 0u8,
    {
        let padded = crate::utils::align_size(size, 16);
        let data = vec![0u8; padded];
        PersistentTensor { data, size }
    }

    /// A buffer holding the supplied bytes, padded with zeros up to the next
    /// 16-byte boundary.
    pub fn with_data(data: Vec<u8>) -> (r: PersistentTensor)
        requires
            data@.len() + 15 <= usize::MAX,
        ensures
            r.wf(),
            r.spec_size() == data@.len(),
            r.spec_data().len() == crate::utils::spec_align_up(data@.len() as int, 16),
            r.spec_data().subrange(0, data@.len() as int) == data@,
    {
        let size = data.len();
        let padded = crate::utils::align_size(size, 16);
        let mut data = data;
        data.resize(padded, 0);
        proof {
            assert(data@.subrange(0, size as int) =~= data@.subrange(0, size as int));
        }
        PersistentTensor { data, size }
    }

    /// The declared size in bytes.
    pub fn size(&self) -> (r: usize)
        ensures
            r == self.spec_size(),
    {
        self.size
    }
}

/// One stored buffer with its id and holder count. The store itself counts as
/// one holder, so a count of one means no outside handle remains.
pub struct PersistentEntry {
    id: u64,
    refs: usize,
    tensor: PersistentTensor,
}

impl PersistentEntry {
    /// The id, in specifications.
    pub closed spec fn spec_id(&self) -> u64 {
        self.id
    }

    /// The holder count, in specifications.
    pub closed spec fn spec_refs(&self) -> usize {
        self.refs
    }

    /// The declared size, in specifications.
    pub closed spec fn spec_size(&self) -> usize {
        self.tensor.spec_size()
    }

    /// The backing bytes, in specifications.
    pub closed spec fn spec_data(&self) -> Seq<u8> {
        self.tensor.spec_data()
    }
}

/// Index of the entry with the given id, or -1 when absent.
pub open spec fn spec_index_of(s: Seq<PersistentEntry>, id: u64) -> int
    decreases s.len(),
{
    if s.len() == 0 {
        -1
    } else if s.last().spec_id() == id {
        s.len() - 1
    } else {
        spec_index_of(s.drop_last(), id)
    }
}

/// The result of `spec_index_of` is either -1 or a valid index holding the id.
pub proof fn lemma_index_of(s: Seq<PersistentEntry>, id: u64)
    ensures
        spec_index_of(s, id) == -1 || (0 <= spec_index_of(s, id) < s.len() && s[spec_index_of(
            s,
            id,
        )].spec_id() == id),
        spec_index_of(s, id) == -1 ==> forall|i: int|
            0 <= i < s.len() ==> #[trigger] s[i].spec_id() != id,
    decreases s.len(),
{
    if s.len() > 0 && s.last().spec_id() != id {
        lemma_index_of(s.drop_last(), id);
        if spec_index_of(s, id) == -1 {
            assert forall|i: int| 0 <= i < s.len() implies #[trigger] s[i].spec_id() != id by {
                if i < s.len() - 1 {
                    assert(s.drop_last()[i] == s[i]);
                } else {
                    assert(s[i] == s.last());
                }
            }
        }
    }
}

/// Id-keyed store of persistent buffers with a monotone id counter.
pub struct PersistentStorage {
    entries: Vec<PersistentEntry>,
    next_id: u64,
}

impl PersistentStorage {
    /// The stored entries, in specifications.
    pub closed spec fn spec_entries(&self) -> Seq<PersistentEntry> {
        self.entries@
    }

    /// The id the next stored buffer will receive, in specifications.
    pub closed spec fn spec_next_id(&self) -> u64 {
        self.next_id
    }

    /// Store invariant: ids strictly increase (so they are unique and never
    /// reused), every id is below the counter, every entry has at least the
    /// store itself as holder, and declared sizes fit their buffers.
    pub open spec fn wf(&self) -> bool {
        &&& forall|i: int, j: int|
            0 <= i < j < self.spec_entries().len() ==> #[trigger] self.spec_entries()[i].spec_id()
                < #[trigger] self.spec_entries()[j].spec_id()
        &&& forall|i: int|
            0 <= i < self.spec_entries().len() ==> #[trigger] self.spec_entries()[i].spec_id()
                < self.spec_next_id()
        &&& forall|i: int|
            0 <= i < self.spec_entries().len() ==> #[trigger] self.spec_entries()[i].spec_refs()
                >= 1
        &&& forall|i: int|
            0 <= i < self.spec_entries().len() ==> #[trigger] self.spec_entries()[i].spec_size()
                <= self.spec_entries()[i].spec_data().len()
    }

    /// An empty store; the first id handed out is 1.
    pub fn new() -> (r: PersistentStorage)
        ensures
            r.wf(),
            r.spec_entries().len() == 0,
            r.spec_next_id() == 1,
    {
        PersistentStorage { entries: Vec::new(), next_id: 1 }
    }

    /// Stores a buffer under a fresh id with the store as only holder.
    pub fn store(&mut self, tensor: PersistentTensor) -> (r: TensorId)
        requires
            old(self).wf(),
            old(self).spec_next_id() < u64::MAX,
            tensor.wf(),
        ensures
            final(self).wf(),
            r.spec_id() == old(self).spec_next_id(),
            final(self).spec_next_id() == old(self).spec_next_id() + 1,
            final(self).spec_entries().len() == old(self).spec_entries().len() + 1,
            final(self).spec_entries().drop_last() == old(self).spec_entries(),
            final(self).spec_entries().last().spec_id() == r.spec_id(),
            final(self).spec_entries().last().spec_refs() == 1,
            final(self).spec_entries().last().spec_size() == tensor.spec_size(),
            final(self).spec_entries().last().spec_data() == tensor.spec_data(),
    {
        let id = self.next_id;
        self.next_id = self.next_id + 1;
        self.entries.push(PersistentEntry { id, refs: 1, tensor });
        proof {
            assert(self.spec_entries().drop_last() =~= old(self).spec_entries());
        }
        TensorId(id)
    }

    /// Index of the entry with this id, if present.
    fn find(&self, id: u64) -> (r: Option<usize>)
        ensures
            r is Some ==> 0 <= r->Some_0 < self.spec_entries().len() && r->Some_0 as int
                == spec_index_of(self.spec_entries(), id),
            r is None ==> spec_index_of(self.spec_entries(), id) == -1,
    {
        let n = self.entries.len();
        let ghost s = self.spec_entries();
        let mut i: usize = n;
        proof {
            assert(s.subrange(0, n as int) =~= s);
        }
        while i > 0
            invariant
                i <= n,
                n == self.spec_entries().len(),
                s == self.spec_entries(),
                spec_index_of(s, id) == spec_index_of(s.subrange(0, i as int), id),
            decreases i,
        {
            proof {
                assert(s.subrange(0, i as int).last() == s[i - 1]);
                assert(s.subrange(0, i as int).drop_last() =~= s.subrange(0, i - 1));
            }
            if self.entries[i - 1].id == id {
                return Some(i - 1);
            }
            i -= 1;
        }
        proof {
            assert(s.subrange(0, 0) =~= Seq::<PersistentEntry>::empty());
        }
        None
    }

    /// A snapshot of the stored buffer under this id, when present.
    pub fn get(&self, id: TensorId) -> (r: Option<PersistentTensor>)
        requires
            self.wf(),
        ensures
            r is Some <==> spec_index_of(self.spec_entries(), id.spec_id()) >= 0,
            r is Some ==> {
                let e = self.spec_entries()[spec_index_of(self.spec_entries(), id.spec_id())];
                r->Some_0.spec_size() == e.spec_size() && r->Some_0.spec_data() == e.spec_data()
            },
    {
        match self.find(id.0) {
            Some(i) => {
                let entry = &self.entries[i];
                Some(PersistentTensor { data: entry.tensor.data.clone(), size: entry.tensor.size })
            },
            None => None,
        }
    }

    /// Declared size of the buffer under this id, when present.
    pub fn size_of(&self, id: TensorId) -> (r: Option<usize>)
        requires
            self.wf(),
        ensures
            r is Some <==> spec_index_of(self.spec_entries(), id.spec_id()) >= 0,
            r is Some ==> r->Some_0 == self.spec_entries()[spec_index_of(
                self.spec_entries(),
                id.spec_id(),
            )].spec_size(),
    {
        match self.find(id.0) {
            Some(i) => Some(self.entries[i].tensor.size),
            None => None,
        }
    }

    /// Copies `len` bytes starting at `offset` out of the buffer under this
    /// id; `None` when the id is unknown or the range does not fit.
    pub fn read_data(&self, id: TensorId, offset: usize, len: usize) -> (r: Option<Vec<u8>>)
        requires
            self.wf(),
        ensures
            ({
                let j = spec_index_of(self.spec_entries(), id.spec_id());
                &&& (r is Some <==> j >= 0 && offset + len <= self.spec_entries()[j].spec_data().len())
                &&& (r is Some ==> r->Some_0@ == self.spec_entries()[j].spec_data().subrange(
                    offset as int,
                    offset + len,
                ))
            }),
    {
        match self.find(id.0) {
            Some(i) => {
                let entry = &self.entries[i];
                let dlen = entry.tensor.data.len();
                if offset > dlen || len > dlen - offset {
                    return None;
                }
                let mut out: Vec<u8> = Vec::new();
                let mut k: usize = 0;
                while k < len
                    invariant
                        k <= len,
                        i < self.spec_entries().len(),
                        offset + len <= usize::MAX,
                        offset + len <= self.spec_entries()[i as int].spec_data().len(),
                        out@ =~= self.spec_entries()[i as int].spec_data().subrange(
                            offset as int,
                            offset + k,
                        ),
                    decreases len - k,
                {
                    out.push(self.entries[i].tensor.data[offset + k]);
                    proof {
                        assert(out@ =~= self.spec_entries()[i as int].spec_data().subrange(
                            offset as int,
                            offset + k + 1,
                        ));
                    }
                    k += 1;
                }
                Some(out)
            },
            None => None,
        }
    }

    /// Writes `data` into the buffer under this id starting at `offset`;
    /// false when the id is unknown or the range does not fit, leaving the
    /// store unchanged.
    pub fn write_data(&mut self, id: TensorId, offset: usize, data: &Vec<u8>) -> (r: bool)
        requires
            old(self).wf(),
        ensures
            final(self).wf(),
            final(self).spec_next_id() == old(self).spec_next_id(),
            final(self).spec_entries().len() == old(self).spec_entries().len(),
            ({
                let j = spec_index_of(old(self).spec_entries(), id.spec_id());
                &&& (r <==> j >= 0 && offset + data@.len() <= old(self).spec_entries()[j].spec_data().len())
                &&& (!r ==> *final(self) == *old(self))
                &&& (r ==> {
                    &&& forall|i: int|
                        0 <= i < old(self).spec_entries().len() && i != j
                            ==> #[trigger] final(self).spec_entries()[i] == old(self).spec_entries()[i]
                    &&& final(self).spec_entries()[j].spec_id() == old(self).spec_entries()[j].spec_id()
                    &&& final(self).spec_entries()[j].spec_refs() == old(self).spec_entries()[j].spec_refs()
                    &&& final(self).spec_entries()[j].spec_size() == old(self).spec_entries()[j].spec_size()
                    &&& final(self).spec_entries()[j].spec_data().len() == old(self).spec_entries()[j].spec_data().len()
                    &&& forall|i: int|
                        offset <= i < offset + data@.len() ==> final(self).spec_entries()[j].spec_data()[i]
                            == data@[i - offset]
                    &&& forall|i: int|
                        0 <= i < final(self).spec_entries()[j].spec_data().len() && !(offset <= i
                            < offset + data@.len()) ==> final(self).spec_entries()[j].spec_data()[i]
                            == old(self).spec_entries()[j].spec_data()[i]
                })
            }),
    {
        let found = self.find(id.0);
        match found {
            Some(i) => {
                let dlen = self.entries[i].tensor.data.len();
                if offset > dlen || data.len() > dlen - offset {
                    return false;
                }
                let n = data.len();
                let ghost pre = *old(self);
                let mut e = self.entries.remove(i);
                let ghost e0 = pre.spec_entries()[i as int];
                let mut k: usize = 0;
                while k < n
                    invariant
                        k <= n,
                        n == data@.len(),
                        offset + n <= usize::MAX,
                        offset + n <= e.spec_data().len(),
                        e.spec_id() == e0.spec_id(),
                        e.spec_refs() == e0.spec_refs(),
                        e.spec_size() == e0.spec_size(),
                        e.spec_data().len() == e0.spec_data().len(),
                        forall|m: int|
                            offset <= m < offset + k ==> e.spec_data()[m] == data@[m - offset],
                        forall|m: int|
                            0 <= m < e.spec_data().len() && !(offset <= m < offset + k)
                                ==> e.spec_data()[m] == e0.spec_data()[m],
                    decreases n - k,
                {
                    e.tensor.data.set(offset + k, data[k]);
                    k += 1;
                }
                self.entries.insert(i, e);
                proof {
                    assert(pre.spec_entries()[i as int].spec_size() <= pre.spec_entries()[
                        i as int
                    ].spec_data().len());
                    assert(self.spec_entries() =~= pre.spec_entries().update(i as int, e));
                    lemma_wf_after_update(
                        pre.spec_entries(),
                        self.spec_entries(),
                        i as int,
                        pre.spec_next_id(),
                    );
                }
                true
            },
            None => false,
        }
    }

    /// Number of stored buffers and the clamped sum of their declared sizes.
    pub fn storage_stats(&self) -> (r: (usize, usize))
        requires
            self.wf(),
        ensures
            r.0 == self.spec_entries().len(),
            r.1 == if spec_sum_sizes(self.spec_entries()) <= usize::MAX {
                spec_sum_sizes(self.spec_entries())
            } else {
                usize::MAX as int
            },
    {
        let n = self.entries.len();
        let mut total: usize = 0;
        let mut i: usize = 0;
        proof {
            assert(self.spec_entries().subrange(0, 0) =~= Seq::<PersistentEntry>::empty());
        }
        while i < n
            invariant
                i <= n,
                n == self.spec_entries().len(),
                self.wf(),
                total == if spec_sum_sizes(self.spec_entries().subrange(0, i as int))
                    <= usize::MAX {
                    spec_sum_sizes(self.spec_entries().subrange(0, i as int))
                } else {
                    usize::MAX as int
                },
            decreases n - i,
        {
            proof {
                assert(self.spec_entries().subrange(0, i + 1).drop_last() =~= self.spec_entries().subrange(
                    0,
                    i as int,
                ));
                lemma_sum_sizes_nonneg(self.spec_entries().subrange(0, i as int));
            }
            let sz = self.entries[i].tensor.size;
            total = if total <= usize::MAX - sz {
                total + sz
            } else {
                usize::MAX
            };
            i += 1;
        }
        proof {
            assert(self.spec_entries().subrange(0, n as int) =~= self.spec_entries());
        }
        (n, total)
    }

    /// Removes the entry under this id outright, whatever its holder count;
    /// false when the id is unknown.
    pub fn remove(&mut self, id: TensorId) -> (r: bool)
        requires
            old(self).wf(),
        ensures
            final(self).wf(),
            final(self).spec_next_id() == old(self).spec_next_id(),
            ({
                let j = spec_index_of(old(self).spec_entries(), id.spec_id());
                &&& (r <==> j >= 0)
                &&& (!r ==> *final(self) == *old(self))
                &&& (r ==> final(self).spec_entries() == old(self).spec_entries().subrange(0, j)
                    + old(self).spec_entries().subrange(j + 1, old(self).spec_entries().len() as int))
            }),
    {
        let found = self.find(id.0);
        match found {
            Some(i) => {
                self.entries.remove(i);
                proof {
                    lemma_wf_after_removal(old(self).spec_entries(), self.spec_entries(), i as int, old(self).spec_next_id());
                }
                true
            },
            None => false,
        }
    }

    /// Adds one holder to the entry under this id; false when unknown.
    pub fn retain(&mut self, id: TensorId) -> (r: bool)
        requires
            old(self).wf(),
            spec_index_of(old(self).spec_entries(), id.spec_id()) >= 0
                ==> old(self).spec_entries()[spec_index_of(
                old(self).spec_entries(),
                id.spec_id(),
            )].spec_refs() < usize::MAX,
        ensures
            final(self).wf(),
            final(self).spec_next_id() == old(self).spec_next_id(),
            ({
                let j = spec_index_of(old(self).spec_entries(), id.spec_id());
                &&& (r <==> j >= 0)
                &&& (!r ==> *final(self) == *old(self))
                &&& (r ==> final(self).spec_entries().len() == old(self).spec_entries().len()
                    && final(self).spec_entries()[j].spec_refs() == old(self).spec_entries()[j].spec_refs()
                    + 1 && final(self).spec_entries()[j].spec_id() == old(self).spec_entries()[j].spec_id()
                    && final(self).spec_entries()[j].spec_size() == old(self).spec_entries()[j].spec_size()
                    && final(self).spec_entries()[j].spec_data() == old(self).spec_entries()[j].spec_data()
                    && forall|i: int|
                    0 <= i < old(self).spec_entries().len() && i != j
                        ==> #[trigger] final(self).spec_entries()[i] == old(self).spec_entries()[i])
            }),
    {
        let found = self.find(id.0);
        match found {
            Some(i) => {
                let ghost pre = *old(self);
                let mut e = self.entries.remove(i);
                e.refs = e.refs + 1;
                self.entries.insert(i, e);
                proof {
                    assert(pre.spec_entries()[i as int].spec_size() <= pre.spec_entries()[
                        i as int
                    ].spec_data().len());
                    assert(self.spec_entries() =~= pre.spec_entries().update(i as int, e));
                    lemma_wf_after_update(
                        pre.spec_entries(),
                        self.spec_entries(),
                        i as int,
                        pre.spec_next_id(),
                    );
                }
                true
            },
            None => false,
        }
    }

    /// Drops one outside holder of the entry under this id; the store's own
    /// hold is never given up. False when the id is unknown.
    pub fn release(&mut self, id: TensorId) -> (r: bool)
        requires
            old(self).wf(),
        ensures
            final(self).wf(),
            final(self).spec_next_id() == old(self).spec_next_id(),
            ({
                let j = spec_index_of(old(self).spec_entries(), id.spec_id());
                &&& (r <==> j >= 0)
                &&& (!r ==> *final(self) == *old(self))
                &&& (r ==> final(self).spec_entries().len() == old(self).spec_entries().len()
                    && final(self).spec_entries()[j].spec_refs() == if old(self).spec_entries()[j].spec_refs()
                    > 1 {
                    old(self).spec_entries()[j].spec_refs() - 1
                } else {
                    1int
                } && final(self).spec_entries()[j].spec_id() == old(self).spec_entries()[j].spec_id()
                    && final(self).spec_entries()[j].spec_size() == old(self).spec_entries()[j].spec_size()
                    && final(self).spec_entries()[j].spec_data() == old(self).spec_entries()[j].spec_data()
                    && forall|i: int|
                    0 <= i < old(self).spec_entries().len() && i != j
                        ==> #[trigger] final(self).spec_entries()[i] == old(self).spec_entries()[i])
            }),
    {
        let found = self.find(id.0);
        match found {
            Some(i) => {
                let ghost pre = *old(self);
                let mut e = self.entries.remove(i);
                if e.refs > 1 {
                    e.refs = e.refs - 1;
                }
                self.entries.insert(i, e);
                proof {
                    assert(pre.spec_entries()[i as int].spec_size() <= pre.spec_entries()[
                        i as int
                    ].spec_data().len());
                    assert(self.spec_entries() =~= pre.spec_entries().update(i as int, e));
                    lemma_wf_after_update(
                        pre.spec_entries(),
                        self.spec_entries(),
                        i as int,
                        pre.spec_next_id(),
                    );
                }
                true
            },
            None => false,
        }
    }

    /// Sweeps out every entry whose only holder is the store itself and
    /// returns how many were removed.
    pub fn gc(&mut self) -> (r: usize)
        requires
            old(self).wf(),
        ensures
            final(self).wf(),
            final(self).spec_next_id() == old(self).spec_next_id(),
            final(self).spec_entries() == old(self).spec_entries().filter(
                |e: PersistentEntry| e.spec_refs() >= 2,
            ),
            r == old(self).spec_entries().len() - final(self).spec_entries().len(),
    {
        let ghost pre_entries = old(self).spec_entries();
        let n = self.entries.len();
        let mut removed: usize = 0;
        let mut i: usize = n;
        proof {
            reveal(Seq::filter);
            assert(pre_entries.subrange(n as int, n as int) =~= Seq::<PersistentEntry>::empty());
            assert(self.entries@ =~= pre_entries.subrange(0, n as int) + pre_entries.subrange(
                n as int,
                n as int,
            ).filter(|e: PersistentEntry| e.spec_refs() >= 2));
        }
        while i > 0
            invariant
                i <= n,
                n == pre_entries.len(),
                self.spec_next_id() == old(self).spec_next_id(),
                self.entries@ == pre_entries.subrange(0, i as int) + pre_entries.subrange(
                    i as int,
                    n as int,
                ).filter(|e: PersistentEntry| e.spec_refs() >= 2),
                removed == (n - i) - pre_entries.subrange(i as int, n as int).filter(|e: PersistentEntry| e.spec_refs() >= 2).len(),
            decreases i,
        {
            i -= 1;
            proof {
                assert(self.entries@[i as int] == pre_entries[i as int]);
            }
            let keep = self.entries[i].refs >= 2;
            proof {
                lemma_filter_suffix_step(pre_entries, i as int, n as int);
                pre_entries.subrange(i + 1, n as int).lemma_filter_len(|e: PersistentEntry| e.spec_refs() >= 2);
            }
            if !keep {
                self.entries.remove(i);
                removed += 1;
                proof {
                    assert(pre_entries[i as int].spec_refs() < 2);
                    let prev = pre_entries.subrange(0, i + 1) + pre_entries.subrange(
                        i + 1,
                        n as int,
                    ).filter(|e: PersistentEntry| e.spec_refs() >= 2);
                    assert(self.entries@ =~= prev.remove(i as int));
                    assert(prev.remove(i as int) =~= pre_entries.subrange(0, i as int)
                        + pre_entries.subrange(i + 1, n as int).filter(|e: PersistentEntry| e.spec_refs() >= 2));
                    assert(pre_entries.subrange(i as int, n as int).filter(|e: PersistentEntry| e.spec_refs() >= 2)
                        =~= pre_entries.subrange(i + 1, n as int).filter(|e: PersistentEntry| e.spec_refs() >= 2));
                }
            } else {
                proof {
                    assert(pre_entries[i as int].spec_refs() >= 2);
                    assert(self.entries@ =~= pre_entries.subrange(0, i as int)
                        + pre_entries.subrange(i as int, n as int).filter(|e: PersistentEntry| e.spec_refs() >= 2));
                }
            }
        }
        proof {
            assert(pre_entries.subrange(0, 0) =~= Seq::<PersistentEntry>::empty());
            assert(self.entries@ =~= pre_entries.filter(|e: PersistentEntry| e.spec_refs() >= 2));
            assert(pre_entries.subrange(0, n as int) =~= pre_entries);
            lemma_filter_wf(old(self).spec_entries(), old(self).spec_next_id());
            pre_entries.lemma_filter_len(|e: PersistentEntry| e.spec_refs() >= 2);
        }
        removed
    }
}

/// One step of filtering a suffix by holder count: the filtered `s[i..n]`
/// either starts with `s[i]` or equals the filtered `s[i+1..n]`, by whether
/// the element keeps at least two holders.
proof fn lemma_filter_suffix_step(s: Seq<PersistentEntry>, i: int, n: int)
    requires
        0 <= i < n <= s.len(),
    ensures
        s[i].spec_refs() >= 2 ==> s.subrange(i, n).filter(
            |e: PersistentEntry| e.spec_refs() >= 2,
        ) == seq![s[i]] + s.subrange(i + 1, n).filter(|e: PersistentEntry| e.spec_refs() >= 2),
        s[i].spec_refs() < 2 ==> s.subrange(i, n).filter(|e: PersistentEntry| e.spec_refs() >= 2)
            == s.subrange(i + 1, n).filter(|e: PersistentEntry| e.spec_refs() >= 2),
{
    reveal(Seq::filter);
    let pred = |e: PersistentEntry| e.spec_refs() >= 2;
    let single = s.subrange(i, i + 1);
    let suffix = s.subrange(i + 1, n);
    Seq::filter_distributes_over_add(single, suffix, pred);
    assert(single + suffix =~= s.subrange(i, n));
    assert(single.drop_last() =~= Seq::<PersistentEntry>::empty());
    assert(Seq::<PersistentEntry>::empty().filter(pred) == Seq::<PersistentEntry>::empty());
    assert(single.last() == s[i]);
    if s[i].spec_refs() >= 2 {
        assert(pred(single.last()));
        assert(single.filter(pred) =~= seq![s[i]]);
        assert(s.subrange(i, n).filter(pred) =~= seq![s[i]] + suffix.filter(pred));
    } else {
        assert(!pred(single.last()));
        assert(single.filter(pred) =~= Seq::<PersistentEntry>::empty());
        assert(s.subrange(i, n).filter(pred) =~= suffix.filter(pred));
    }
}

/// Sum of the declared sizes of all entries.
pub open spec fn spec_sum_sizes(s: Seq<PersistentEntry>) -> int
    decreases s.len(),
{
    if s.len() == 0 {
        0
    } else {
        spec_sum_sizes(s.drop_last()) + s.last().spec_size()
    }
}

/// Sums of sizes are non-negative.
pub proof fn lemma_sum_sizes_nonneg(s: Seq<PersistentEntry>)
    ensures
        spec_sum_sizes(s) >= 0,
    decreases s.len(),
{
    if s.len() > 0 {
        lemma_sum_sizes_nonneg(s.drop_last());
    }
}

/// `spec_index_of` ignores everything but ids, so it is unchanged when only
/// an entry's contents (not its id) changed.
pub proof fn lemma_index_of_unchanged(pre: Seq<PersistentEntry>, post: Seq<PersistentEntry>, id: u64)
    requires
        pre.len() == post.len(),
        forall|i: int| 0 <= i < pre.len() ==> #[trigger] post[i].spec_id() == pre[i].spec_id(),
    ensures
        spec_index_of(pre, id) == spec_index_of(post, id),
    decreases pre.len(),
{
    if pre.len() > 0 {
        assert(post.last().spec_id() == pre.last().spec_id());
        lemma_index_of_unchanged(pre.drop_last(), post.drop_last(), id);
    }
}

/// Replacing one entry with one of equal id, at least one holder, and a
/// declared size that fits its buffer keeps every store invariant.
proof fn lemma_wf_after_update(
    pre: Seq<PersistentEntry>,
    post: Seq<PersistentEntry>,
    j: int,
    next_id: u64,
)
    requires
        0 <= j < pre.len(),
        post == pre.update(j, post[j]),
        post[j].spec_id() == pre[j].spec_id(),
        post[j].spec_refs() >= 1,
        post[j].spec_size() <= post[j].spec_data().len(),
        forall|i: int, k: int|
            0 <= i < k < pre.len() ==> #[trigger] pre[i].spec_id() < #[trigger] pre[k].spec_id(),
        forall|i: int| 0 <= i < pre.len() ==> #[trigger] pre[i].spec_id() < next_id,
        forall|i: int| 0 <= i < pre.len() ==> #[trigger] pre[i].spec_refs() >= 1,
        forall|i: int|
            0 <= i < pre.len() ==> #[trigger] pre[i].spec_size() <= pre[i].spec_data().len(),
    ensures
        forall|i: int, k: int|
            0 <= i < k < post.len() ==> #[trigger] post[i].spec_id() < #[trigger] post[k].spec_id(),
        forall|i: int| 0 <= i < post.len() ==> #[trigger] post[i].spec_id() < next_id,
        forall|i: int| 0 <= i < post.len() ==> #[trigger] post[i].spec_refs() >= 1,
        forall|i: int|
            0 <= i < post.len() ==> #[trigger] post[i].spec_size() <= post[i].spec_data().len(),
        spec_index_of(post, pre[j].spec_id()) == spec_index_of(pre, pre[j].spec_id()),
{
    assert forall|i: int| 0 <= i < post.len() implies #[trigger] post[i].spec_id()
        == pre[i].spec_id() by {}
    assert forall|i: int, k: int| 0 <= i < k < post.len() implies #[trigger] post[i].spec_id()
        < #[trigger] post[k].spec_id() by {
        assert(post[i].spec_id() == pre[i].spec_id());
        assert(post[k].spec_id() == pre[k].spec_id());
    }
    lemma_index_of_unchanged(pre, post, pre[j].spec_id());
}

/// Removing one entry keeps ids strictly increasing and all other invariants.
proof fn lemma_wf_after_removal(
    pre: Seq<PersistentEntry>,
    post: Seq<PersistentEntry>,
    j: int,
    next_id: u64,
)
    requires
        0 <= j < pre.len(),
        post == pre.subrange(0, j) + pre.subrange(j + 1, pre.len() as int),
        forall|i: int, k: int|
            0 <= i < k < pre.len() ==> #[trigger] pre[i].spec_id() < #[trigger] pre[k].spec_id(),
        forall|i: int| 0 <= i < pre.len() ==> #[trigger] pre[i].spec_id() < next_id,
        forall|i: int| 0 <= i < pre.len() ==> #[trigger] pre[i].spec_refs() >= 1,
        forall|i: int|
            0 <= i < pre.len() ==> #[trigger] pre[i].spec_size() <= pre[i].spec_data().len(),
    ensures
        forall|i: int, k: int|
            0 <= i < k < post.len() ==> #[trigger] post[i].spec_id() < #[trigger] post[k].spec_id(),
        forall|i: int| 0 <= i < post.len() ==> #[trigger] post[i].spec_id() < next_id,
        forall|i: int| 0 <= i < post.len() ==> #[trigger] post[i].spec_refs() >= 1,
        forall|i: int|
            0 <= i < post.len() ==> #[trigger] post[i].spec_size() <= post[i].spec_data().len(),
{
    assert forall|i: int| 0 <= i < post.len() implies #[trigger] post[i] == if i < j {
        pre[i]
    } else {
        pre[i + 1]
    } by {}
}

/// Every element of a filtered sequence also occurs in the original.
proof fn lemma_filter_elems_contained(s: Seq<PersistentEntry>, pred: spec_fn(PersistentEntry) -> bool)
    ensures
        forall|j: int|
            0 <= j < s.filter(pred).len() ==> s.contains(#[trigger] s.filter(pred)[j]),
    decreases s.len(),
{
    reveal(Seq::filter);
    if s.len() > 0 {
        let dl = s.drop_last();
        lemma_filter_elems_contained(dl, pred);
        let out = s.filter(pred);
        assert forall|j: int| 0 <= j < out.len() implies s.contains(#[trigger] out[j]) by {
            if pred(s.last()) && j == out.len() - 1 {
                assert(out[j] == s.last());
                assert(s[s.len() - 1] == s.last());
            } else {
                assert(out[j] == dl.filter(pred)[j]);
                assert(dl.contains(out[j]));
                let m = choose|m: int| 0 <= m < dl.len() && dl[m] == out[j];
                assert(s[m] == out[j]);
            }
        }
    }
}

/// Filtering preserves the store invariants: kept entries appear in the same
/// order, so ids still strictly increase, and each kept entry occurs in the
/// original, so the per-entry bounds carry over.
proof fn lemma_filter_wf(pre: Seq<PersistentEntry>, next_id: u64)
    requires
        forall|i: int, k: int|
            0 <= i < k < pre.len() ==> #[trigger] pre[i].spec_id() < #[trigger] pre[k].spec_id(),
        forall|i: int| 0 <= i < pre.len() ==> #[trigger] pre[i].spec_id() < next_id,
        forall|i: int| 0 <= i < pre.len() ==> #[trigger] pre[i].spec_refs() >= 1,
        forall|i: int|
            0 <= i < pre.len() ==> #[trigger] pre[i].spec_size() <= pre[i].spec_data().len(),
    ensures
        ({
            let post = pre.filter(|e: PersistentEntry| e.spec_refs() >= 2);
            &&& forall|i: int, k: int|
                0 <= i < k < post.len() ==> #[trigger] post[i].spec_id()
                    < #[trigger] post[k].spec_id()
            &&& forall|i: int| 0 <= i < post.len() ==> #[trigger] post[i].spec_id() < next_id
            &&& forall|i: int| 0 <= i < post.len() ==> #[trigger] post[i].spec_refs() >= 1
            &&& forall|i: int|
                0 <= i < post.len() ==> #[trigger] post[i].spec_size() <= post[i].spec_data().len()
        }),
    decreases pre.len(),
{
    let pred = |e: PersistentEntry| e.spec_refs() >= 2;
    let post = pre.filter(pred);
    lemma_filter_elems_contained(pre, pred);
    assert forall|i: int| 0 <= i < post.len() implies #[trigger] post[i].spec_id() < next_id
        && post[i].spec_refs() >= 1 && post[i].spec_size() <= post[i].spec_data().len() by {
        assert(pre.contains(post[i]));
        let m = choose|m: int| 0 <= m < pre.len() && pre[m] == post[i];
        assert(pre[m].spec_id() < next_id);
        assert(pre[m].spec_refs() >= 1);
        assert(pre[m].spec_size() <= pre[m].spec_data().len());
    }
    if pre.len() > 0 {
        reveal(Seq::filter);
        let dl = pre.drop_last();
        lemma_filter_wf(dl, next_id);
        let fdl = dl.filter(pred);
        lemma_filter_elems_contained(dl, pred);
        if pred(pre.last()) {
            assert(post == fdl.push(pre.last()));
            assert forall|i: int, k: int|
                0 <= i < k < post.len() implies #[trigger] post[i].spec_id()
                < #[trigger] post[k].spec_id() by {
                if k < post.len() - 1 {
                    assert(post[i] == fdl[i] && post[k] == fdl[k]);
                } else {
                    assert(post[k] == pre.last());
                    assert(post[i] == fdl[i]);
                    assert(dl.contains(fdl[i]));
                    let m = choose|m: int| 0 <= m < dl.len() && dl[m] == fdl[i];
                    assert(pre[m] == fdl[i]);
                    assert(pre[m].spec_id() < pre[pre.len() - 1].spec_id());
                }
            }
        } else {
            assert(post == fdl);
        }
    }
}

} // verus!
