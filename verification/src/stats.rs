//! Operation counters of a WAL.
//!
//! Every counter wraps around on overflow, as an atomic counter does.
use vstd::prelude::*;
use vstd::wrapping::u64_specs::{wrapping_add, wrapping_sub};

verus! {

/// A snapshot of the counters.
#[derive(Debug, Clone, Copy, PartialEq, Eq, Structural)]
pub struct WalStats {
    /// Records written.
    pub total_records: u64,
    /// Bytes written.
    pub total_bytes: u64,
    /// Write operations.
    pub write_count: u64,
    /// Read operations.
    pub read_count: u64,
    /// Flushes.
    pub flush_count: u64,
    /// Segments in use.
    pub segment_count: u64,
}

/// The live counters, updated as operations happen.
pub struct Stats {
    total_records: u64,
    total_bytes: u64,
    write_count: u64,
    read_count: u64,
    flush_count: u64,
    segment_count: u64,
}

impl View for Stats {
    type V = WalStats;

    closed spec fn view(&self) -> WalStats {
        WalStats {
            total_records: self.total_records,
            total_bytes: self.total_bytes,
            write_count: self.write_count,
            read_count: self.read_count,
            flush_count: self.flush_count,
            segment_count: self.segment_count,
        }
    }
}

impl Stats {
    /// Fresh counters: all zero, but for one segment.
    pub fn new() -> (r: Self)
        ensures
            r@ == (WalStats {
                total_records: 0,
                total_bytes: 0,
                write_count: 0,
                read_count: 0,
                flush_count: 0,
                segment_count: 1,
            }),
    {
        Stats {
            total_records: 0,
            total_bytes: 0,
            write_count: 0,
            read_count: 0,
            flush_count: 0,
            segment_count: 1,
        }
    }

    /// Counts one write of `bytes` bytes: one more write, one more record.
    pub fn record_write(&mut self, bytes: u64)
        ensures
            final(self)@ == (WalStats {
                write_count: wrapping_add(old(self)@.write_count, 1),
                total_records: wrapping_add(old(self)@.total_records, 1),
                total_bytes: wrapping_add(old(self)@.total_bytes, bytes),
                ..old(self)@
            }),
    {
        self.write_count = self.write_count.wrapping_add(1);
        self.total_records = self.total_records.wrapping_add(1);
        self.total_bytes = self.total_bytes.wrapping_add(bytes);
    }

    /// Counts one read.
    pub fn record_read(&mut self)
        ensures
            final(self)@ == (WalStats { read_count: wrapping_add(old(self)@.read_count, 1), ..old(self)@ }),
    {
        self.read_count = self.read_count.wrapping_add(1);
    }

    /// Counts one flush.
    pub fn record_flush(&mut self)
        ensures
            final(self)@ == (WalStats { flush_count: wrapping_add(old(self)@.flush_count, 1), ..old(self)@ }),
    {
        self.flush_count = self.flush_count.wrapping_add(1);
    }

    /// Sets the number of segments.
    pub fn set_segment_count(&mut self, count: u64)
        ensures
            final(self)@ == (WalStats { segment_count: count, ..old(self)@ }),
    {
        self.segment_count = count;
    }

    /// Counts one more segment.
    pub fn increment_segment_count(&mut self)
        ensures
            final(self)@ == (WalStats {
                segment_count: wrapping_add(old(self)@.segment_count, 1),
                ..old(self)@
            }),
    {
        self.segment_count = self.segment_count.wrapping_add(1);
    }

    /// Counts one segment less.
    pub fn decrement_segment_count(&mut self)
        ensures
            final(self)@ == (WalStats {
                segment_count: wrapping_sub(old(self)@.segment_count, 1),
                ..old(self)@
            }),
    {
        self.segment_count = self.segment_count.wrapping_sub(1);
    }

    /// The current values of the counters.
    pub fn snapshot(&self) -> (r: WalStats)
        ensures
            r == self@,
    {
        WalStats {
            total_records: self.total_records,
            total_bytes: self.total_bytes,
            write_count: self.write_count,
            read_count: self.read_count,
            flush_count: self.flush_count,
            segment_count: self.segment_count,
        }
    }
}

/// Adding a segment and then removing one leaves the count as it was.
pub proof fn lemma_segment_count_inverse(count: u64)
    ensures
        wrapping_sub(wrapping_add(count, 1), 1) == count,
        wrapping_add(wrapping_sub(count, 1), 1) == count,
{
}

} // verus!
