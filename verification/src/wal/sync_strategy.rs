//! When to make written data durable: never, after every write, or at most
//! once per interval; and what syncing has cost so far.
//!
//! The statistics counters wrap around on overflow.
use crate::clock::{elapsed_ms, instant_now};
use vstd::prelude::*;
use vstd::wrapping::u64_specs::wrapping_add;

verus! {

/// When written data is synced.
#[derive(Debug, Clone, Copy, PartialEq, Eq, Structural)]
pub enum SyncMode {
    /// Never: the operating system's buffers decide. A crash may lose the
    /// last seconds of data.
    NoSync,
    /// After every write: the safest and the slowest.
    FsyncOnWrite,
    /// At most once per interval.
    Periodic {
        /// The interval, in milliseconds.
        interval_ms: u64,
    },
}

/// What syncing has cost so far.
#[derive(Debug, Clone)]
pub struct SyncStats {
    /// Syncs performed.
    pub sync_count: u64,
    /// Bytes synced.
    pub synced_bytes: u64,
    /// Time spent syncing, in milliseconds.
    pub sync_time_ms: u64,
    /// When the last sync happened.
    pub last_sync_at: Option<std::time::Instant>,
}

impl SyncStats {
    /// No sync yet.
    pub fn new() -> (r: Self)
        ensures
            r.sync_count == 0,
            r.synced_bytes == 0,
            r.sync_time_ms == 0,
            r.last_sync_at is None,
    {
        SyncStats { sync_count: 0, synced_bytes: 0, sync_time_ms: 0, last_sync_at: None }
    }

    /// Counts one sync of `bytes` bytes that took `duration_ms`, happening
    /// now.
    pub fn record(&mut self, bytes: u64, duration_ms: u64)
        ensures
            final(self).sync_count == wrapping_add(old(self).sync_count, 1),
            final(self).synced_bytes == wrapping_add(old(self).synced_bytes, bytes),
            final(self).sync_time_ms == wrapping_add(old(self).sync_time_ms, duration_ms),
            final(self).last_sync_at is Some,
    {
        let now = instant_now();
        self.record_at(bytes, duration_ms, now);
    }

    /// Counts one sync of `bytes` bytes that took `duration_ms`, happening
    /// at `now`.
    pub fn record_at(&mut self, bytes: u64, duration_ms: u64, now: std::time::Instant)
        ensures
            final(self).sync_count == wrapping_add(old(self).sync_count, 1),
            final(self).synced_bytes == wrapping_add(old(self).synced_bytes, bytes),
            final(self).sync_time_ms == wrapping_add(old(self).sync_time_ms, duration_ms),
            final(self).last_sync_at == Some(now),
    {
        self.sync_count = self.sync_count.wrapping_add(1);
        self.synced_bytes = self.synced_bytes.wrapping_add(bytes);
        self.sync_time_ms = self.sync_time_ms.wrapping_add(duration_ms);
        self.last_sync_at = Some(now);
    }

    /// Bytes per sync, rounded down; 0 before the first sync.
    pub fn avg_sync_size(&self) -> (r: u64)
        ensures
            r == (if self.sync_count == 0 { 0 } else { self.synced_bytes / self.sync_count }),
    {
        if self.sync_count == 0 {
            0
        } else {
            self.synced_bytes / self.sync_count
        }
    }

    /// Milliseconds per sync, rounded down; 0 before the first sync.
    pub fn avg_sync_latency(&self) -> (r: u64)
        ensures
            r == (if self.sync_count == 0 { 0 } else { self.sync_time_ms / self.sync_count }),
    {
        if self.sync_count == 0 {
            0
        } else {
            self.sync_time_ms / self.sync_count
        }
    }
}

impl Default for SyncStats {
    fn default() -> (r: Self)
        ensures
            r.sync_count == 0,
            r.synced_bytes == 0,
            r.sync_time_ms == 0,
            r.last_sync_at is None,
    {
        SyncStats::new()
    }
}

/// What a write decides: whether to sync now, and how much is pending.
pub open spec fn write_decision(mode: SyncMode, pending: u64, elapsed_ms: u64) -> Option<u64> {
    match mode {
        SyncMode::NoSync => None,
        SyncMode::FsyncOnWrite => Some(pending),
        SyncMode::Periodic { interval_ms } => if elapsed_ms >= interval_ms {
            Some(pending)
        } else {
            None
        },
    }
}

/// Tracks unsynced bytes and decides when to sync.
pub struct SyncStrategy {
    mode: SyncMode,
    pending_bytes: u64,
    last_sync_time: std::time::Instant,
    stats: SyncStats,
}

impl SyncStrategy {
    /// The mode.
    pub closed spec fn spec_mode(&self) -> SyncMode {
        self.mode
    }

    /// Bytes written and not yet synced.
    pub closed spec fn spec_pending_bytes(&self) -> u64 {
        self.pending_bytes
    }

    /// The statistics.
    pub closed spec fn spec_stats(&self) -> SyncStats {
        self.stats
    }

    /// A strategy in `mode` with nothing pending, whose interval starts now.
    pub fn new(mode: SyncMode) -> (r: Self)
        ensures
            r.spec_mode() == mode,
            r.spec_pending_bytes() == 0,
            r.spec_stats().sync_count == 0,
            r.spec_stats().synced_bytes == 0,
            r.spec_stats().sync_time_ms == 0,
            r.spec_stats().last_sync_at is None,
    {
        SyncStrategy { mode, pending_bytes: 0, last_sync_time: instant_now(), stats: SyncStats::new() }
    }

    /// A periodic strategy.
    pub fn periodic(interval_ms: u64) -> (r: Self)
        ensures
            r.spec_mode() == (SyncMode::Periodic { interval_ms }),
            r.spec_pending_bytes() == 0,
            r.spec_stats().sync_count == 0,
    {
        Self::new(SyncMode::Periodic { interval_ms })
    }

    /// The mode.
    pub fn mode(&self) -> (r: SyncMode)
        ensures
            r == self.spec_mode(),
    {
        self.mode
    }

    /// The statistics.
    pub fn stats(&self) -> (r: &SyncStats)
        ensures
            *r == self.spec_stats(),
    {
        &self.stats
    }

    /// Records a write of `bytes` bytes, `elapsed_ms` after the last sync,
    /// and tells how many bytes to sync now, if any. In periodic mode, a
    /// decision to sync starts a new interval.
    pub fn on_write_after(&mut self, bytes: u64, elapsed_ms: u64) -> (r: Option<u64>)
        requires
            old(self).spec_pending_bytes() + bytes <= u64::MAX,
        ensures
            final(self).spec_pending_bytes() == old(self).spec_pending_bytes() + bytes,
            r == write_decision(old(self).spec_mode(), final(self).spec_pending_bytes(), elapsed_ms),
            final(self).spec_mode() == old(self).spec_mode(),
            final(self).spec_stats() == old(self).spec_stats(),
    {
        self.pending_bytes = self.pending_bytes + bytes;
        match self.mode {
            SyncMode::NoSync => None,
            SyncMode::FsyncOnWrite => Some(self.pending_bytes),
            SyncMode::Periodic { interval_ms } => {
                if elapsed_ms >= interval_ms {
                    self.last_sync_time = instant_now();
                    Some(self.pending_bytes)
                } else {
                    None
                }
            },
        }
    }

    /// Records a write of `bytes` bytes and tells how many bytes to sync
    /// now, if any; in periodic mode the time since the last sync decides.
    pub fn on_write(&mut self, bytes: u64) -> (r: Option<u64>)
        requires
            old(self).spec_pending_bytes() + bytes <= u64::MAX,
        ensures
            final(self).spec_pending_bytes() == old(self).spec_pending_bytes() + bytes,
            final(self).spec_mode() == old(self).spec_mode(),
            final(self).spec_stats() == old(self).spec_stats(),
            old(self).spec_mode() == SyncMode::NoSync ==> r is None,
            old(self).spec_mode() == SyncMode::FsyncOnWrite ==> r == Some(final(self).spec_pending_bytes()),
            r matches Some(n) ==> n == final(self).spec_pending_bytes(),
    {
        let elapsed = elapsed_ms(&self.last_sync_time);
        self.on_write_after(bytes, elapsed)
    }

    /// Records that `bytes` bytes were synced in `duration_ms`.
    pub fn on_synced(&mut self, bytes: u64, duration_ms: u64)
        ensures
            final(self).spec_pending_bytes() == (if old(self).spec_pending_bytes() >= bytes {
                old(self).spec_pending_bytes() - bytes
            } else {
                0
            }),
            final(self).spec_mode() == old(self).spec_mode(),
            final(self).spec_stats().sync_count == wrapping_add(old(self).spec_stats().sync_count, 1),
            final(self).spec_stats().synced_bytes == wrapping_add(old(self).spec_stats().synced_bytes, bytes),
            final(self).spec_stats().sync_time_ms == wrapping_add(old(self).spec_stats().sync_time_ms, duration_ms),
    {
        let now = instant_now();
        self.on_synced_at(bytes, duration_ms, now);
    }

    /// Records that `bytes` bytes were synced in `duration_ms`, the sync
    /// happening at `now`.
    pub fn on_synced_at(&mut self, bytes: u64, duration_ms: u64, now: std::time::Instant)
        ensures
            final(self).spec_pending_bytes() == (if old(self).spec_pending_bytes() >= bytes {
                old(self).spec_pending_bytes() - bytes
            } else {
                0
            }),
            final(self).spec_mode() == old(self).spec_mode(),
            final(self).spec_stats().sync_count == wrapping_add(old(self).spec_stats().sync_count, 1),
            final(self).spec_stats().synced_bytes == wrapping_add(old(self).spec_stats().synced_bytes, bytes),
            final(self).spec_stats().sync_time_ms == wrapping_add(old(self).spec_stats().sync_time_ms, duration_ms),
            final(self).spec_stats().last_sync_at == Some(now),
    {
        self.pending_bytes = self.pending_bytes.saturating_sub(bytes);
        self.stats.record_at(bytes, duration_ms, now);
    }

    /// Forgets what is pending and starts a new interval.
    pub fn reset(&mut self)
        ensures
            final(self).spec_pending_bytes() == 0,
            final(self).spec_mode() == old(self).spec_mode(),
            final(self).spec_stats() == old(self).spec_stats(),
    {
        self.pending_bytes = 0;
        self.last_sync_time = instant_now();
    }

    /// Bytes written and not yet synced.
    pub fn pending_bytes(&self) -> (r: u64)
        ensures
            r == self.spec_pending_bytes(),
    {
        self.pending_bytes
    }
}

impl Default for SyncStrategy {
    fn default() -> (r: Self)
        ensures
            r.spec_mode() == SyncMode::NoSync,
            r.spec_pending_bytes() == 0,
    {
        SyncStrategy::new(SyncMode::NoSync)
    }
}

} // verus!
