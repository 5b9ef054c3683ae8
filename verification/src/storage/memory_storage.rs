//! A byte store held in memory.
use crate::error::Error;
use crate::storage::{read_range, write_at, Location, Storage, StorageStats};
use vstd::prelude::*;
use vstd::string::StringExecFns;
use vstd::wrapping::u64_specs::wrapping_add;

verus! {

/// A store that keeps its bytes in a vector. Its counters wrap around on
/// overflow.
pub struct MemoryStorage {
    data: Vec<u8>,
    stats: StorageStats,
}

/// The result of writing `data_list[i]` at `offsets[i]` for each `i`, in order.
pub open spec fn write_all(c: Seq<u8>, offsets: Seq<u64>, data: Seq<Seq<u8>>) -> Seq<u8>
    decreases offsets.len(),
{
    if offsets.len() == 0 || data.len() == 0 {
        c
    } else {
        write_all(c, offsets.drop_last(), data.drop_last()).len() as int;
        write_at(
            write_all(c, offsets.drop_last(), data.drop_last()),
            offsets.last() as int,
            data.last(),
        )
    }
}

/// The sum of the lengths of `data`.
pub open spec fn total_len(data: Seq<Seq<u8>>) -> nat
    decreases data.len(),
{
    if data.len() == 0 {
        0
    } else {
        total_len(data.drop_last()) + data.last().len()
    }
}

/// The bytes of `data`, one after the other.
pub open spec fn concat_all(data: Seq<Seq<u8>>) -> Seq<u8>
    decreases data.len(),
{
    if data.len() == 0 {
        Seq::empty()
    } else {
        concat_all(data.drop_last()) + data.last()
    }
}

proof fn lemma_concat_len(data: Seq<Seq<u8>>)
    ensures
        concat_all(data).len() == total_len(data),
    decreases data.len(),
{
    if data.len() > 0 {
        lemma_concat_len(data.drop_last());
    }
}

impl MemoryStorage {
    pub closed spec fn spec_stats(&self) -> StorageStats {
        self.stats
    }

    /// A new, empty store.
    pub fn new() -> (r: Self)
        ensures
            r.contents() == Seq::<u8>::empty(),
            r.spec_stats() == (StorageStats { size: 0, bytes_written: 0, bytes_read: 0, write_ops: 0, read_ops: 0 }),
    {
        MemoryStorage { data: Vec::new(), stats: StorageStats::default() }
    }

    /// A new, empty store with room for `capacity` bytes.
    pub fn with_capacity(capacity: usize) -> (r: Self)
        ensures
            r.contents() == Seq::<u8>::empty(),
            r.spec_stats() == (StorageStats { size: 0, bytes_written: 0, bytes_read: 0, write_ops: 0, read_ops: 0 }),
    {
        MemoryStorage { data: Vec::with_capacity(capacity), stats: StorageStats::default() }
    }

    /// A copy of the bytes held.
    pub fn snapshot(&self) -> (r: Vec<u8>)
        ensures
            r@ == self.contents(),
    {
        let mut r: Vec<u8> = Vec::new();
        let mut i: usize = 0;
        while i < self.data.len()
            invariant
                i <= self.data@.len(),
                r@ == self.data@.take(i as int),
            decreases self.data@.len() - i,
        {
            r.push(self.data[i]);
            i = i + 1;
            assert(r@ =~= self.data@.take(i as int));
        }
        assert(self.data@.take(i as int) =~= self.data@);
        r
    }

    /// Appends every item of `data_list`, in order, as one write, and
    /// returns where each starts.
    pub fn append_batch(&mut self, data_list: &[&[u8]]) -> (r: Result<Vec<u64>, Error>)
        requires
            old(self).contents().len() + total_len(data_list@.map_values(|d: &[u8]| d@)) <= usize::MAX,
        ensures
            ({
                let ds = data_list@.map_values(|d: &[u8]| d@);
                &&& r is Ok
                &&& r matches Ok(offs) ==> {
                    &&& offs@.len() == data_list@.len()
                    &&& forall|i: int|
                        0 <= i < offs@.len() ==> #[trigger] offs@[i] == old(self).contents().len()
                            + total_len(ds.take(i))
                }
                &&& final(self).contents() == old(self).contents() + concat_all(ds)
                &&& data_list@.len() == 0 ==> final(self).spec_stats() == old(self).spec_stats()
                &&& data_list@.len() > 0 ==> final(self).spec_stats() == (StorageStats {
                    bytes_written: wrapping_add(old(self).spec_stats().bytes_written, total_len(ds) as u64),
                    write_ops: wrapping_add(old(self).spec_stats().write_ops, 1),
                    size: final(self).contents().len() as u64,
                    ..old(self).spec_stats()
                })
            }),
    {
        let ghost ds = data_list@.map_values(|d: &[u8]| d@);
        let mut offsets: Vec<u64> = Vec::new();
        if data_list.len() == 0 {
            assert(ds =~= Seq::<Seq<u8>>::empty());
            assert(self.data@ + concat_all(ds) =~= self.data@);
            return Ok(offsets);
        }
        let ghost old_data = self.data@;
        let start = self.data.len();
        let mut bytes: u64 = 0;
        let mut i: usize = 0;
        while i < data_list.len()
            invariant
                i <= data_list@.len(),
                ds == data_list@.map_values(|d: &[u8]| d@),
                old_data.len() + total_len(ds) <= usize::MAX,
                start == old_data.len(),
                self.data@ == old_data + concat_all(ds.take(i as int)),
                bytes == total_len(ds.take(i as int)),
                offsets@.len() == i,
                forall|k: int| 0 <= k < i ==> #[trigger] offsets@[k] == old_data.len() + total_len(ds.take(k)),
                self.stats == old(self).stats,
            decreases data_list@.len() - i,
        {
            proof {
                assert(ds.take(i + 1).drop_last() =~= ds.take(i as int));
                lemma_total_len_prefix(ds, (i + 1) as nat);
                lemma_concat_len(ds.take(i as int));
            }
            offsets.push(start as u64 + bytes);
            let d = data_list[i];
            let mut j: usize = 0;
            let ghost before = self.data@;
            while j < d.len()
                invariant
                    j <= d@.len(),
                    self.data@ == before + d@.take(j as int),
                    before.len() + d@.len() <= usize::MAX,
                    self.stats == old(self).stats,
                decreases d@.len() - j,
            {
                self.data.push(d[j]);
                j = j + 1;
                assert(self.data@ =~= before + d@.take(j as int));
            }
            assert(d@.take(j as int) =~= d@);
            bytes = bytes + d.len() as u64;
            i = i + 1;
            proof {
                assert(ds.take(i as int).drop_last() =~= ds.take(i - 1));
                assert(ds.take(i as int).last() == d@);
            }
        }
        assert(ds.take(i as int) =~= ds);
        self.stats.count_write(bytes, self.data.len() as u64);
        Ok(offsets)
    }
}

proof fn lemma_total_len_prefix(ds: Seq<Seq<u8>>, k: nat)
    requires
        k <= ds.len(),
    ensures
        total_len(ds.take(k as int)) <= total_len(ds),
    decreases ds.len() - k,
{
    if k < ds.len() {
        lemma_total_len_prefix(ds, k + 1);
        assert(ds.take(k + 1 as int).drop_last() =~= ds.take(k as int));
    } else {
        assert(ds.take(k as int) =~= ds);
    }
}

impl Default for MemoryStorage {
    fn default() -> (r: Self)
        ensures
            r.contents() == Seq::<u8>::empty(),
    {
        Self::new()
    }
}

impl Storage for MemoryStorage {
    closed spec fn contents(&self) -> Seq<u8> {
        self.data@
    }

    /// A store in memory never fails.
    open spec fn reliable(&self) -> bool {
        true
    }

    /// Reads from the vector; reads at or past the end give nothing and
    /// are not counted.
    fn read(&mut self, offset: u64, length: u64) -> (r: Result<Vec<u8>, Error>)
        ensures
            r matches Ok(d) && d@ == read_range(old(self).contents(), offset as int, length as int),
            offset >= old(self).contents().len() ==> final(self).spec_stats() == old(self).spec_stats(),
            offset < old(self).contents().len() ==> final(self).spec_stats() == (StorageStats {
                bytes_read: wrapping_add(old(self).spec_stats().bytes_read, read_range(old(self).contents(), offset as int, length as int).len() as u64),
                read_ops: wrapping_add(old(self).spec_stats().read_ops, 1),
                ..old(self).spec_stats()
            }),
    {
        if offset >= self.data.len() as u64 {
            return Ok(Vec::new());
        }
        let offset = offset as usize;
        let avail = self.data.len() - offset;
        let end = if length < avail as u64 { offset + length as usize } else { self.data.len() };
        let mut result: Vec<u8> = Vec::new();
        let mut i = offset;
        while i < end
            invariant
                offset <= i <= end,
                end <= self.data@.len(),
                result@ == self.data@.subrange(offset as int, i as int),
            decreases end - i,
        {
            result.push(self.data[i]);
            i = i + 1;
            assert(result@ =~= self.data@.subrange(offset as int, i as int));
        }
        self.stats.count_read(result.len() as u64);
        Ok(result)
    }

    /// Writes into the vector, growing it with zeros as needed.
    fn write(&mut self, offset: u64, data: &[u8]) -> (r: Result<(), Error>)
        ensures
            r is Ok,
            final(self).spec_stats() == (StorageStats {
                bytes_written: wrapping_add(old(self).spec_stats().bytes_written, data@.len() as u64),
                write_ops: wrapping_add(old(self).spec_stats().write_ops, 1),
                size: final(self).contents().len() as u64,
                ..old(self).spec_stats()
            }),
    {
        let offset = offset as usize;
        let required_len = offset + data.len();
        let ghost c = self.data@;
        if self.data.len() < required_len {
            self.data.resize(required_len, 0u8);
            proof {
                assert forall|i: int| c.len() <= i < required_len implies self.data@[i] == 0u8 by {
                    assert(vstd::pervasive::cloned::<u8>(0u8, self.data@[i]));
                }
            }
        }
        let ghost grown = self.data@;
        let mut j: usize = 0;
        while j < data.len()
            invariant
                j <= data@.len(),
                offset + data@.len() <= self.data@.len(),
                offset + data@.len() <= usize::MAX,
                self.data@.len() == grown.len(),
                self.stats == old(self).stats,
                forall|i: int| 0 <= i < self.data@.len() ==> #[trigger] self.data@[i] == (if offset <= i < offset + j { data@[i - offset] } else { grown[i] }),
            decreases data@.len() - j,
        {
            self.data.set(offset + j, data[j]);
            j = j + 1;
        }
        assert(self.data@ =~= write_at(c, offset as int, data@));
        self.stats.count_write(data.len() as u64, self.data.len() as u64);
        Ok(())
    }

    /// Appends to the vector.
    fn append(&mut self, data: &[u8]) -> (r: Result<u64, Error>)
        ensures
            r is Ok,
            final(self).spec_stats() == (StorageStats {
                bytes_written: wrapping_add(old(self).spec_stats().bytes_written, data@.len() as u64),
                write_ops: wrapping_add(old(self).spec_stats().write_ops, 1),
                size: final(self).contents().len() as u64,
                ..old(self).spec_stats()
            }),
    {
        let offset = self.data.len() as u64;
        let ghost before = self.data@;
        let mut j: usize = 0;
        while j < data.len()
            invariant
                j <= data@.len(),
                self.data@ == before + data@.take(j as int),
                before.len() + data@.len() <= usize::MAX,
                self.stats == old(self).stats,
            decreases data@.len() - j,
        {
            self.data.push(data[j]);
            j = j + 1;
            assert(self.data@ =~= before + data@.take(j as int));
        }
        assert(data@.take(j as int) =~= data@);
        self.stats.count_write(data.len() as u64, self.data.len() as u64);
        Ok(offset)
    }

    /// Reads each range in turn.
    fn read_batch(&mut self, locations: &[Location]) -> (r: Result<Vec<Vec<u8>>, Error>)
        ensures
            r matches Ok(v) && forall|i: int| 0 <= i < v@.len() ==> (#[trigger] v@[i])@ == read_range(
                old(self).contents(),
                locations@[i].offset as int,
                locations@[i].length as int,
            ),
    {
        let mut results: Vec<Vec<u8>> = Vec::new();
        let mut i: usize = 0;
        while i < locations.len()
            invariant
                i <= locations@.len(),
                self.data@ == old(self).data@,
                results@.len() == i,
                forall|k: int| 0 <= k < i ==> (#[trigger] results@[k])@ == read_range(
                    old(self).data@,
                    locations@[k].offset as int,
                    locations@[k].length as int,
                ),
            decreases locations@.len() - i,
        {
            let loc = locations[i];
            let data = match self.read(loc.offset, loc.length) {
                Ok(d) => d,
                Err(e) => return Err(e),
            };
            results.push(data);
            i = i + 1;
        }
        Ok(results)
    }

    /// Writes each item in turn; refuses lists of different lengths.
    fn write_batch(&mut self, offsets: &[u64], data_list: &[&[u8]]) -> (r: Result<(), Error>)
        ensures
            offsets@.len() != data_list@.len() ==> (r matches Err(Error::Generic(m)) && m@
                == "offsets and data_list must have the same length"@),
            offsets@.len() == data_list@.len() ==> r is Ok && final(self).contents() == write_all(
                old(self).contents(),
                offsets@,
                data_list@.map_values(|d: &[u8]| d@),
            ),
    {
        if offsets.len() != data_list.len() {
            return Err(Error::Generic(String::from_str("offsets and data_list must have the same length")));
        }
        let ghost ds = data_list@.map_values(|d: &[u8]| d@);
        let ghost c0 = self.data@;
        let mut i: usize = 0;
        while i < offsets.len()
            invariant
                i <= offsets@.len(),
                offsets@.len() == data_list@.len(),
                ds == data_list@.map_values(|d: &[u8]| d@),
                forall|k: int|
                    0 <= k < offsets@.len() ==> (#[trigger] offsets@[k]) + data_list@[k]@.len()
                        <= usize::MAX,
                self.data@ == write_all(c0, offsets@.take(i as int), ds.take(i as int)),
            decreases offsets@.len() - i,
        {
            let r = self.write(offsets[i], data_list[i]);
            i = i + 1;
            proof {
                assert(offsets@.take(i as int).drop_last() =~= offsets@.take(i - 1));
                assert(ds.take(i as int).drop_last() =~= ds.take(i - 1));
            }
        }
        assert(offsets@.take(i as int) =~= offsets@);
        assert(ds.take(i as int) =~= ds);
        Ok(())
    }

    /// Nothing to do: the bytes are in memory.
    fn sync(&mut self) -> (r: Result<(), Error>)
        ensures
            r is Ok,
            final(self).spec_stats() == old(self).spec_stats(),
    {
        Ok(())
    }

    /// The length of the vector.
    fn size(&self) -> (r: Result<u64, Error>)
        ensures
            r is Ok,
    {
        Ok(self.data.len() as u64)
    }

    /// Truncates the vector; a longer length leaves it as it is.
    fn truncate(&mut self, length: u64) -> (r: Result<(), Error>)
        ensures
            r is Ok,
            length > old(self).contents().len() ==> final(self).contents() == old(self).contents(),
            final(self).spec_stats() == (StorageStats {
                size: final(self).contents().len() as u64,
                ..old(self).spec_stats()
            }),
    {
        if length < self.data.len() as u64 {
            self.data.truncate(length as usize);
        }
        self.stats.size = self.data.len() as u64;
        Ok(())
    }

    /// The counters.
    fn stats(&self) -> (r: StorageStats)
        ensures
            r == self.spec_stats(),
    {
        self.stats
    }

    /// Nothing to do: the bytes are in memory.
    fn close(&mut self) -> (r: Result<(), Error>)
        ensures
            r is Ok,
            final(self).spec_stats() == old(self).spec_stats(),
    {
        Ok(())
    }
}

} // verus!
