//! Health classification and the monitor's poll bookkeeping.
//!
//! The monitor owns a set of tracked devices keyed by address. Once per
//! cycle each device is polled; the outcome drives a three-way status
//! rule: too hot means Warning whatever the hashrate, a cold idle device
//! is Warning too, and only a hashing device below the temperature
//! threshold is Active. A device whose poll failed after all retries is
//! Dead. The polling loop itself — timers, sockets, concurrent tasks —
//! lives outside and feeds each outcome into `apply_poll`.

use vstd::prelude::*;
use crate::models::{Miner, MinerStats, MinerStatus, MonitorConfig, miner_eq, stats_eq,
    stats_is_default};

verus! {

/// Whether one optional reading is at or above the threshold.
pub open spec fn opt_temp_ge(v: Option<i64>, t: i64) -> bool {
    match v {
        Some(x) => x >= t,
        None => false,
    }
}

/// Whether any reported maximum temperature, chip side or board side,
/// reaches the threshold.
pub open spec fn any_temp_ge(s: MinerStats, t: i64) -> bool {
    ||| exists|i: int|
        0 <= i < s.temp_outlet_max@.len() && opt_temp_ge(#[trigger] s.temp_outlet_max@[i], t)
    ||| exists|i: int|
        0 <= i < s.temp_inlet_max@.len() && opt_temp_ge(#[trigger] s.temp_inlet_max@[i], t)
}

/// The status a successful poll assigns: Warning when any maximum
/// temperature reaches the threshold, regardless of hashrate; otherwise
/// Active exactly when the average hashrate is positive.
pub open spec fn status_of(s: MinerStats, t: i64) -> MinerStatus {
    if any_temp_ge(s, t) {
        MinerStatus::Warning
    } else if s.hashrate_avg > 0 {
        MinerStatus::Active
    } else {
        MinerStatus::Warning
    }
}

/// Temperature at or above the threshold always yields Warning, whatever
/// the hashrate; below the threshold, a positive average hashrate yields
/// Active and a zero or negative one yields Warning.
pub proof fn lemma_status_classification(s: MinerStats, t: i64)
    ensures
        any_temp_ge(s, t) ==> status_of(s, t) == MinerStatus::Warning,
        !any_temp_ge(s, t) && s.hashrate_avg > 0 ==> status_of(s, t) == MinerStatus::Active,
        !any_temp_ge(s, t) && s.hashrate_avg <= 0 ==> status_of(s, t) == MinerStatus::Warning,
{
}

fn any_slot_ge(v: &Vec<Option<i64>>, t: i64) -> (r: bool)
    ensures
        r == exists|i: int| 0 <= i < v@.len() && opt_temp_ge(#[trigger] v@[i], t),
{
    let n = v.len();
    let mut i: usize = 0;
    while i < n
        invariant
            n == v@.len(),
            0 <= i <= n,
            forall|k: int| 0 <= k < i ==> !opt_temp_ge(#[trigger] v@[k], t),
        decreases n - i,
    {
        match v[i] {
            Some(x) => {
                if x >= t {
                    return true;
                }
            },
            None => {},
        }
        i = i + 1;
    }
    false
}

/// Classify a snapshot against a configured temperature threshold.
pub fn determine_status(stats: &MinerStats, config: &MonitorConfig) -> (r: MinerStatus)
    ensures
        r == status_of(*stats, config.warning_temp_threshold),
{
    if any_slot_ge(&stats.temp_outlet_max, config.warning_temp_threshold) || any_slot_ge(
        &stats.temp_inlet_max,
        config.warning_temp_threshold,
    ) {
        MinerStatus::Warning
    } else if stats.hashrate_avg > 0 {
        MinerStatus::Active
    } else {
        MinerStatus::Warning
    }
}

/// Classify a freshly scanned snapshot against the fixed discovery
/// threshold of 85 degrees.
pub fn determine_status_from_stats(stats: &MinerStats) -> (r: MinerStatus)
    ensures
        r == status_of(*stats, 85000),
{
    if any_slot_ge(&stats.temp_outlet_max, 85000) || any_slot_ge(&stats.temp_inlet_max, 85000) {
        MinerStatus::Warning
    } else if stats.hashrate_avg > 0 {
        MinerStatus::Active
    } else {
        MinerStatus::Warning
    }
}

/// Apply one poll outcome to a device record, in place. A successful
/// poll installs the new snapshot and reclassifies; a failed poll (after
/// the retry budget) marks the device Dead and keeps the old snapshot.
/// Returns whether the status changed this cycle, which is when the
/// monitor emits an update event.
pub fn apply_poll(
    m: &mut Miner,
    outcome: Option<MinerStats>,
    config: &MonitorConfig,
    now: u64,
) -> (changed: bool)
    ensures
        final(m).ip == old(m).ip,
        final(m).model == old(m).model,
        final(m).last_updated == now,
        outcome matches Some(st) ==> stats_eq(final(m).stats, st) && final(m).status == status_of(
            st,
            config.warning_temp_threshold,
        ),
        outcome is None ==> final(m).status == MinerStatus::Dead && stats_eq(
            final(m).stats,
            old(m).stats,
        ),
        changed == (final(m).status != old(m).status),
{
    let old_status = m.status;
    match outcome {
        Some(st) => {
            m.stats = st;
            m.status = determine_status(&m.stats, config);
        },
        None => {
            m.status = MinerStatus::Dead;
        },
    }
    m.last_updated = now;
    m.status != old_status
}

/// Some record in the sequence carries this address.
pub open spec fn has_ip(es: Seq<Miner>, ip: Seq<char>) -> bool {
    exists|i: int| 0 <= i < es.len() && (#[trigger] es[i]).ip@ == ip
}

proof fn lemma_has_ip_extend(es: Seq<Miner>, m: Miner, ip: Seq<char>)
    requires
        has_ip(es, ip),
    ensures
        has_ip(es.push(m), ip),
{
    let i = choose|i: int| 0 <= i < es.len() && (#[trigger] es[i]).ip@ == ip;
    assert(es.push(m)[i].ip@ == ip);
}

/// The tracked device set: one record per address, addresses unique.
/// The surrounding process guards it with whatever sharing it needs and
/// drives one `apply_to` call per device per cycle.
pub struct MinerRegistry {
    pub miners: Vec<Miner>,
}

impl MinerRegistry {
    /// Addresses are pairwise distinct.
    pub open spec fn wf(self) -> bool {
        forall|i: int, j: int|
            0 <= i < j < self.miners@.len() ==> (#[trigger] self.miners@[i]).ip@ != (
            #[trigger] self.miners@[j]).ip@
    }

    pub open spec fn entries(self) -> Seq<Miner> {
        self.miners@
    }

    /// Index of the record for an address, if tracked.
    pub open spec fn index_of(self, ip: Seq<char>) -> Option<int> {
        if exists|i: int| 0 <= i < self.miners@.len() && (#[trigger] self.miners@[i]).ip@ == ip {
            Some(choose|i: int| 0 <= i < self.miners@.len() && (#[trigger] self.miners@[i]).ip@ == ip)
        } else {
            None
        }
    }

    /// Create the initial set from an address list: one record per
    /// distinct address, in first-seen order, each Scanning with an
    /// empty snapshot.
    pub fn new_registry(ips: &Vec<String>, now: u64) -> (r: MinerRegistry)
        ensures
            r.wf(),
            forall|i: int|
                0 <= i < r.entries().len() ==> ({
                    &&& (#[trigger] r.entries()[i]).status == MinerStatus::Scanning
                    &&& r.entries()[i].model is None
                    &&& stats_is_default(r.entries()[i].stats)
                    &&& r.entries()[i].last_updated == now
                    &&& exists|k: int| 0 <= k < ips@.len() && (#[trigger] ips@[k])@ == r.entries()[i].ip@
                }),
            forall|k: int|
                0 <= k < ips@.len() ==> has_ip(r.entries(), (#[trigger] ips@[k])@),
    {
        let mut reg = MinerRegistry { miners: Vec::new() };
        let n = ips.len();
        let mut k: usize = 0;
        while k < n
            invariant
                n == ips@.len(),
                0 <= k <= n,
                reg.wf(),
                forall|i: int|
                    0 <= i < reg.entries().len() ==> ({
                        &&& (#[trigger] reg.entries()[i]).status == MinerStatus::Scanning
                        &&& reg.entries()[i].model is None
                        &&& stats_is_default(reg.entries()[i].stats)
                        &&& reg.entries()[i].last_updated == now
                        &&& exists|j: int|
                            0 <= j < k && (#[trigger] ips@[j])@ == reg.entries()[i].ip@
                    }),
                forall|j: int|
                    0 <= j < k ==> has_ip(reg.entries(), (#[trigger] ips@[j])@),
            decreases n - k,
        {
            let ghost before = reg.miners@;
            match reg.find_index(&ips[k]) {
                Some(idx) => {
                    proof {
                        assert(reg.entries()[idx as int].ip@ == ips@[k as int]@);
                        assert(has_ip(reg.entries(), ips@[k as int]@));
                    }
                },
                None => {
                    let m = Miner {
                        ip: ips[k].clone(),
                        model: None,
                        status: MinerStatus::Scanning,
                        stats: MinerStats::default(),
                        last_updated: now,
                    };
                    reg.miners.push(m);
                    proof {
                        assert(reg.miners@[before.len() as int].ip@ == ips@[k as int]@);
                        assert(has_ip(reg.entries(), ips@[k as int]@));
                        assert(forall|i: int|
                            0 <= i < before.len() ==> #[trigger] reg.miners@[i] == before[i]);
                    }
                },
            }
            proof {
                assert forall|j: int| 0 <= j < k + 1 implies has_ip(
                    reg.entries(),
                    (#[trigger] ips@[j])@,
                ) by {
                    if j < k {
                        if reg.miners@.len() > before.len() {
                            assert(reg.miners@ =~= before.push(
                                reg.miners@[before.len() as int],
                            ));
                            lemma_has_ip_extend(
                                before,
                                reg.miners@[before.len() as int],
                                ips@[j]@,
                            );
                        } else {
                            assert(reg.miners@ == before);
                        }
                    } else {
                        assert(has_ip(reg.entries(), ips@[k as int]@));
                    }
                }
            }
            k = k + 1;
        }
        reg
    }

    /// Locate the record index for an address.
    pub fn find_index(&self, ip: &String) -> (r: Option<usize>)
        ensures
            r is Some == has_ip(self.entries(), ip@),
            r matches Some(i) ==> i < self.entries().len() && self.entries()[i as int].ip@ == ip@,
    {
        let n = self.miners.len();
        let mut i: usize = 0;
        while i < n
            invariant
                n == self.entries().len(),
                0 <= i <= n,
                forall|k: int| 0 <= k < i ==> (#[trigger] self.entries()[k]).ip@ != ip@,
            decreases n - i,
        {
            if self.miners[i].ip.eq(ip) {
                return Some(i);
            }
            i = i + 1;
        }
        None
    }

    /// Apply one poll outcome to the record of `ip`, if tracked; other
    /// records are untouched. Returns whether that record's status
    /// changed, or nothing when the address is not tracked.
    pub fn apply_to(
        &mut self,
        ip: &String,
        outcome: Option<MinerStats>,
        config: &MonitorConfig,
        now: u64,
    ) -> (r: Option<bool>)
        requires
            old(self).wf(),
        ensures
            final(self).wf(),
            final(self).entries().len() == old(self).entries().len(),
            r is Some == has_ip(old(self).entries(), ip@),
            r is None ==> final(self).entries() == old(self).entries(),
            r matches Some(changed) ==> exists|i: int|
                ({
                    &&& 0 <= i < old(self).entries().len()
                    &&& (#[trigger] old(self).entries()[i]).ip@ == ip@
                    &&& (forall|j: int|
                        0 <= j < old(self).entries().len() && j != i
                            ==> final(self).entries()[j] == #[trigger] old(self).entries()[j])
                    &&& final(self).entries()[i].ip == old(self).entries()[i].ip
                    &&& final(self).entries()[i].model == old(self).entries()[i].model
                    &&& final(self).entries()[i].last_updated == now
                    &&& (outcome matches Some(st) ==> stats_eq(final(self).entries()[i].stats, st)
                        && final(self).entries()[i].status == status_of(
                        st,
                        config.warning_temp_threshold,
                    ))
                    &&& (outcome is None ==> final(self).entries()[i].status == MinerStatus::Dead
                        && stats_eq(final(self).entries()[i].stats, old(self).entries()[i].stats))
                    &&& changed == (final(self).entries()[i].status != old(
                        self,
                    ).entries()[i].status)
                }),
    {
        match self.find_index(ip) {
            Some(i) => {
                let ghost before = self.miners@;
                let mut entry = self.miners.remove(i);
                let changed = apply_poll(&mut entry, outcome, config, now);
                self.miners.insert(i, entry);
                proof {
                    assert(self.miners@ =~= before.update(i as int, self.miners@[i as int]));
                    assert forall|a: int, b: int|
                        0 <= a < b < self.miners@.len() implies (#[trigger] self.miners@[a]).ip@
                        != (#[trigger] self.miners@[b]).ip@ by {
                        assert(before[a].ip@ != before[b].ip@);
                    }
                }
                Some(changed)
            },
            None => None,
        }
    }

    /// A point-in-time copy of every record, for snapshot events.
    pub fn snapshot(&self) -> (r: Vec<Miner>)
        ensures
            r@.len() == self.entries().len(),
            forall|i: int| 0 <= i < r@.len() ==> miner_eq(#[trigger] r@[i], self.entries()[i]),
    {
        let n = self.miners.len();
        let mut out: Vec<Miner> = Vec::new();
        let mut i: usize = 0;
        while i < n
            invariant
                n == self.entries().len(),
                0 <= i <= n,
                out@.len() == i,
                forall|k: int| 0 <= k < i ==> miner_eq(#[trigger] out@[k], self.entries()[k]),
            decreases n - i,
        {
            out.push(self.miners[i].duplicate());
            i = i + 1;
        }
        out
    }

    /// How many devices are tracked.
    pub fn count(&self) -> (r: usize)
        ensures
            r == self.entries().len(),
    {
        self.miners.len()
    }
}

/// Events emitted by the monitor.
pub enum MonitorEvent {
    /// A new miner was added to monitoring.
    MinerAdded(Miner),
    /// A miner's status changed this cycle.
    MinerUpdated(Miner),
    /// A miner was removed from monitoring.
    MinerRemoved(String),
    /// Full snapshot of all miners.
    FullSnapshot(Vec<Miner>),
}

} // verus!
