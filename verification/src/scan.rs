//! Bookkeeping of a network scan.
//!
//! The scan fans probes out across an address sequence; the surrounding
//! process runs the sockets and the admission gate, and reports each
//! finished probe here. The tracker decides which events to emit: one
//! `Started` up front, a `Progress` after every tenth completed probe
//! and on the final one, and one `Complete` once every probe has
//! finished, whose failed count is derived as total minus found.

use vstd::prelude::*;
use crate::models::{Miner, MinerStats, MinerStatus};

verus! {

/// Events emitted during network scanning.
pub enum ScanEvent {
    /// Scan has started.
    Started { total_ips: usize },
    /// Found a miner.
    Found(Miner),
    /// Progress update.
    Progress { scanned: usize, total: usize },
    /// Scan completed.
    Complete { found: usize, failed: usize },
}

/// Counters of one scan in flight.
pub struct ScanTracker {
    pub total: usize,
    pub scanned: usize,
    pub found: usize,
}

impl ScanTracker {
    /// Counts can only have arisen from recording probes: no more found
    /// than scanned, no more scanned than planned.
    pub open spec fn wf(self) -> bool {
        self.found <= self.scanned <= self.total
    }

    /// Start tracking a scan over `total` addresses, yielding the
    /// `Started` event to emit first.
    pub fn start(total: usize) -> (r: (ScanTracker, ScanEvent))
        ensures
            r.0.wf(),
            r.0.total == total,
            r.0.scanned == 0,
            r.0.found == 0,
            r.1 matches ScanEvent::Started { total_ips } && total_ips == total,
    {
        (ScanTracker { total, scanned: 0, found: 0 }, ScanEvent::Started { total_ips: total })
    }

    /// Record one finished probe. Returns whether a `Progress` event is
    /// due: after every tenth completed probe and on the final one.
    pub fn record_probe(&mut self, found_miner: bool) -> (emit_progress: bool)
        requires
            old(self).wf(),
            old(self).scanned < old(self).total,
        ensures
            final(self).wf(),
            final(self).total == old(self).total,
            final(self).scanned == old(self).scanned + 1,
            final(self).found == old(self).found + (if found_miner {
                1int
            } else {
                0int
            }),
            emit_progress == (final(self).scanned % 10 == 0
                || final(self).scanned == final(self).total),
    {
        self.scanned = self.scanned + 1;
        if found_miner {
            self.found = self.found + 1;
        }
        self.scanned % 10 == 0 || self.scanned == self.total
    }

    /// The `Complete` event, once every probe has finished. The failed
    /// count is derived, never independently tracked, so the two counts
    /// always sum to the total.
    pub fn complete_event(&self) -> (e: ScanEvent)
        requires
            self.wf(),
            self.scanned == self.total,
        ensures
            e matches ScanEvent::Complete { found, failed } && found == self.found && failed
                == self.total - self.found && found + failed == self.total,
    {
        ScanEvent::Complete { found: self.found, failed: self.total - self.found }
    }
}

/// At completion the found and failed counts of the `Complete` event
/// always sum to the scan's total.
pub proof fn lemma_scan_complete_invariant(t: ScanTracker)
    requires
        t.wf(),
        t.scanned == t.total,
    ensures
        0 <= t.found <= t.total,
        t.found + (t.total - t.found) == t.total,
{
}

/// Build the device record for a responding address found by the scan:
/// status classified from the snapshot at the fixed discovery threshold,
/// the given model label, and the given timestamp.
pub fn build_found_miner(
    ip: String,
    model: Option<String>,
    stats: MinerStats,
    now: u64,
) -> (m: Miner)
    ensures
        m.ip == ip,
        m.model == model,
        crate::models::stats_eq(m.stats, stats),
        m.status == crate::monitor::status_of(stats, 85000),
        m.last_updated == now,
{
    let status = crate::monitor::determine_status_from_stats(&stats);
    Miner { ip, model, status, stats, last_updated: now }
}

} // verus!
