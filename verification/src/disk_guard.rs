//! Backpressure: the ingest gate that holds ingestion back, and the guard that closes
//! and opens it by the size of the queue on disk.

use vstd::prelude::*;

use crate::audit::{AuditEvent, Level};
use crate::config::BufferConfig;
use crate::text;

verus! {

/// Seconds between two checks where the configuration names none.
pub const DEFAULT_CHECK_INTERVAL_SECS: u64 = 5;

/// Limit on the queue's size where the configuration names none: 4 GiB.
pub const DEFAULT_MAX_DISK_BYTES: u64 = 4_294_967_296;

/// The ingest gate in front of ingestion.
#[derive(Debug)]
pub struct IngestGate {
    paused: bool,
}

impl View for IngestGate {
    type V = bool;

    /// Whether ingestion is held back.
    closed spec fn view(&self) -> bool {
        self.paused
    }
}

impl IngestGate {
    /// An open gate.
    pub fn new() -> (gate: Self)
        ensures
            !gate@,
    {
        Self { paused: false }
    }

    /// Closes the ingest gate, or opens it.
    pub fn set_paused(&mut self, v: bool)
        ensures
            final(self)@ == v,
    {
        self.paused = v;
    }

    /// Whether ingestion is held back.
    pub fn is_paused(&self) -> (paused: bool)
        ensures
            paused == self@,
    {
        self.paused
    }
}

/// The limit on the queue's size that a configuration asks for.
pub open spec fn disk_limit(cfg: BufferConfig) -> u64 {
    match cfg.max_disk_bytes {
        Some(bytes) => bytes,
        None => DEFAULT_MAX_DISK_BYTES,
    }
}

/// Seconds between two checks that a configuration asks for, at least one.
pub open spec fn check_interval(cfg: BufferConfig) -> u64 {
    match cfg.retention_check_interval_seconds {
        Some(secs) => if secs == 0 {
            1
        } else {
            secs
        },
        None => DEFAULT_CHECK_INTERVAL_SECS,
    }
}

/// `Disk limit hit: .. bytes. Pausing.`
pub open spec fn limit_hit_message(disk: u64) -> Seq<char> {
    "Disk limit hit: "@ + text::decimal(disk as nat) + " bytes. Pausing."@
}

/// `Disk recovered: .. bytes. Resuming.`
pub open spec fn recovered_message(disk: u64) -> Seq<char> {
    "Disk recovered: "@ + text::decimal(disk as nat) + " bytes. Resuming."@
}

/// When the ingest gate closes and when it opens again.
pub struct DiskLimitsView {
    pub interval_secs: u64,
    pub max_disk_bytes: u64,
    pub resume_bytes: u64,
}

impl DiskLimitsView {
    /// The ingest gate after a check that found `disk` bytes: closed at the limit or
    /// above, open at the resume mark or below, else as it was.
    pub open spec fn gate_after(self, paused: bool, disk: u64) -> bool {
        if disk >= self.max_disk_bytes {
            true
        } else if disk <= self.resume_bytes {
            false
        } else {
            paused
        }
    }

    /// What a check reports: the change of the ingest gate, if it changes.
    pub open spec fn report(self, paused: bool, disk: u64) -> Option<crate::audit::AuditEventView> {
        if self.gate_after(paused, disk) == paused {
            None
        } else if paused {
            Some(
                crate::audit::AuditEventView {
                    level: Level::Info,
                    event_id: 1034,
                    message: recovered_message(disk),
                },
            )
        } else {
            Some(
                crate::audit::AuditEventView {
                    level: Level::Error,
                    event_id: 1023,
                    message: limit_hit_message(disk),
                },
            )
        }
    }
}

/// The size that a check goes by: a queue that cannot be measured counts as empty.
pub open spec fn measured(disk: Option<u64>) -> u64 {
    match disk {
        Some(bytes) => bytes,
        None => 0,
    }
}

/// What an optional event says.
pub open spec fn event_view(event: Option<AuditEvent>) -> Option<crate::audit::AuditEventView> {
    match event {
        Some(e) => Some(e@),
        None => None,
    }
}

/// Watches the size of the queue on disk.
#[derive(Debug)]
pub struct DiskGuard {
    interval_secs: u64,
    max_disk_bytes: u64,
    resume_bytes: u64,
}

impl View for DiskGuard {
    type V = DiskLimitsView;

    closed spec fn view(&self) -> DiskLimitsView {
        DiskLimitsView {
            interval_secs: self.interval_secs,
            max_disk_bytes: self.max_disk_bytes,
            resume_bytes: self.resume_bytes,
        }
    }
}

impl DiskGuard {
    /// The limit on the queue's size that `cfg` asks for.
    pub fn limit_of(cfg: &BufferConfig) -> (max_disk_bytes: u64)
        ensures
            max_disk_bytes == disk_limit(*cfg),
            cfg.max_disk_bytes matches Some(bytes) ==> max_disk_bytes == bytes,
            cfg.max_disk_bytes is None ==> max_disk_bytes == 4294967296,
    {
        cfg.max_disk_bytes.unwrap_or(DEFAULT_MAX_DISK_BYTES)
    }

    /// A guard with the limits of `cfg` that opens the ingest gate again once the queue
    /// is down to `resume_bytes`.
    pub fn new(cfg: &BufferConfig, resume_bytes: u64) -> (guard: Self)
        ensures
            guard@ == (DiskLimitsView {
                interval_secs: check_interval(*cfg),
                max_disk_bytes: disk_limit(*cfg),
                resume_bytes,
            }),
            cfg.max_disk_bytes matches Some(bytes) ==> guard@.max_disk_bytes == bytes,
            cfg.max_disk_bytes is None ==> guard@.max_disk_bytes == 4294967296,
    {
        let asked: u64 = cfg.retention_check_interval_seconds.unwrap_or(
            DEFAULT_CHECK_INTERVAL_SECS,
        );
        let interval_secs: u64 = if asked < 1 {
            1
        } else {
            asked
        };
        Self { interval_secs, max_disk_bytes: Self::limit_of(cfg), resume_bytes }
    }

    /// Seconds to wait between two checks.
    pub fn interval_secs(&self) -> (secs: u64)
        ensures
            secs == self@.interval_secs,
    {
        self.interval_secs
    }

    /// One check: sets the ingest gate by the size of the queue, and reports a change.
    /// `disk` is `None` where the size could not be read.
    pub fn check(&self, disk: Option<u64>, gate: &mut IngestGate) -> (event: Option<AuditEvent>)
        ensures
            final(gate)@ == self@.gate_after(old(gate)@, measured(disk)),
            event_view(event) == self@.report(old(gate)@, measured(disk)),
            disk matches Some(bytes) ==> (final(gate)@ <==> bytes >= self@.max_disk_bytes || (
            old(gate)@ && bytes > self@.resume_bytes)),
            disk is None ==> (final(gate)@ <==> self@.max_disk_bytes == 0),
            event is Some <==> final(gate)@ != old(gate)@,
    {
        let disk: u64 = disk.unwrap_or(0);
        if disk >= self.max_disk_bytes {
            if !gate.is_paused() {
                gate.set_paused(true);
                let mut message = "Disk limit hit: ".to_owned();
                text::push_decimal(&mut message, disk);
                message.append(" bytes. Pausing.");
                return Some(AuditEvent { level: Level::Error, event_id: 1023, message });
            }
        } else if disk <= self.resume_bytes && gate.is_paused() {
            gate.set_paused(false);
            let mut message = "Disk recovered: ".to_owned();
            text::push_decimal(&mut message, disk);
            message.append(" bytes. Resuming.");
            return Some(AuditEvent { level: Level::Info, event_id: 1034, message });
        }
        None
    }
}

/// A second check of the same size changes nothing and reports nothing.
pub proof fn law_check_idempotent(limits: DiskLimitsView, paused: bool, disk: u64)
    ensures
        ({
            let after = limits.gate_after(paused, disk);
            limits.gate_after(after, disk) == after && limits.report(after, disk) is None
        }),
{
}

/// At the limit and above, ingestion is held back, whatever the ingest gate was.
pub proof fn law_full_disk_pauses(limits: DiskLimitsView, paused: bool, disk: u64)
    requires
        disk >= limits.max_disk_bytes,
    ensures
        limits.gate_after(paused, disk),
{
}

/// A closed gate opens again only when the queue is at the resume mark or below
/// and under the limit.
pub proof fn law_resume_needs_room(limits: DiskLimitsView, disk: u64)
    ensures
        !limits.gate_after(true, disk) <==> disk <= limits.resume_bytes && disk
            < limits.max_disk_bytes,
{
}

/// Between the two marks the ingest gate stays as it is, so that a size hovering near
/// the limit does not flip it back and forth.
pub proof fn law_hysteresis(limits: DiskLimitsView, paused: bool, disk: u64)
    requires
        limits.resume_bytes < disk < limits.max_disk_bytes,
    ensures
        limits.gate_after(paused, disk) == paused,
        limits.report(paused, disk) is None,
{
}

/// A check reports exactly the changes of the ingest gate.
pub proof fn law_report_iff_change(limits: DiskLimitsView, paused: bool, disk: u64)
    ensures
        limits.report(paused, disk) is Some <==> limits.gate_after(paused, disk) != paused,
{
}

/// A configured limit is taken as it is, whatever it is, and only a configuration that
/// names none gets 4 GiB.
pub proof fn law_configured_limit(cfg: BufferConfig)
    ensures
        cfg.max_disk_bytes matches Some(bytes) ==> disk_limit(cfg) == bytes,
        cfg.max_disk_bytes is None ==> disk_limit(cfg) == 4294967296,
{
}

/// A check by a guard under a configuration that names a limit closes an open gate
/// exactly when the queue has at least so many bytes.
pub proof fn law_configured_limit_decides(
    cfg: BufferConfig,
    limits: DiskLimitsView,
    limit: u64,
    disk: u64,
)
    requires
        cfg.max_disk_bytes == Some(limit),
        limits.max_disk_bytes == disk_limit(cfg),
    ensures
        limits.gate_after(false, disk) <==> disk >= limit,
        limits.report(false, disk) is Some <==> disk >= limit,
{
}

/// Checks come at least a second apart, as far apart as the configuration says, or 5
/// seconds where it says nothing.
pub proof fn law_configured_interval(cfg: BufferConfig)
    ensures
        check_interval(cfg) >= 1,
        cfg.retention_check_interval_seconds matches Some(secs) ==> (secs >= 1 ==> check_interval(
            cfg,
        ) == secs),
        cfg.retention_check_interval_seconds == Some(0u64) ==> check_interval(cfg) == 1,
        cfg.retention_check_interval_seconds is None ==> check_interval(cfg) == 5,
{
}

/// A check goes by the size that was read, and by zero where none could be read.
pub proof fn law_measured(disk: Option<u64>)
    ensures
        disk matches Some(bytes) ==> measured(disk) == bytes,
        disk is None ==> measured(disk) == 0,
{
}

/// What the audit log gets: an error with number 1023 and the size when the ingest gate closes,
/// a note with number 1034 and the size when it opens, and nothing else.
pub proof fn law_reports(limits: DiskLimitsView, disk: u64)
    ensures
        disk >= limits.max_disk_bytes ==> {
            &&& limits.report(true, disk) is None
            &&& limits.report(false, disk) matches Some(event) && {
                &&& event.level == Level::Error
                &&& event.event_id == 1023
                &&& event.message == "Disk limit hit: "@ + text::decimal(disk as nat)
                    + " bytes. Pausing."@
            }
        },
        disk < limits.max_disk_bytes ==> {
            &&& limits.report(false, disk) is None
            &&& disk > limits.resume_bytes ==> limits.report(true, disk) is None
            &&& disk <= limits.resume_bytes ==> (limits.report(true, disk) matches Some(event) && {
                &&& event.level == Level::Info
                &&& event.event_id == 1034
                &&& event.message == "Disk recovered: "@ + text::decimal(disk as nat)
                    + " bytes. Resuming."@
            })
        },
{
}

/// What an optional event says is what the event holds.
pub proof fn law_event_view(event: Option<AuditEvent>)
    ensures
        event is None <==> event_view(event) is None,
        event matches Some(e) ==> {
            &&& event_view(event) matches Some(said)
            &&& said.level == e.level
            &&& said.event_id == e.event_id
            &&& said.message == e.message@
        },
{
}

/// After any checks of a gate that was open, it is closed exactly when one of them found
/// the queue at its limit and none since has found it both under the limit and down to
/// the resume mark.
pub proof fn law_gate_follows_history(limits: DiskLimitsView, sizes: Seq<u64>)
    ensures
        sizes.fold_left(false, |paused: bool, disk: u64| limits.gate_after(paused, disk)) <==> exists|
            i: int,
        |
            0 <= i < sizes.len() && #[trigger] sizes[i] >= limits.max_disk_bytes && forall|j: int|
                i < j < sizes.len() ==> !(#[trigger] sizes[j] < limits.max_disk_bytes && sizes[j]
                    <= limits.resume_bytes),
    decreases sizes.len(),
{
    let check = |paused: bool, disk: u64| limits.gate_after(paused, disk);
    if sizes.len() > 0 {
        let n = sizes.len() - 1;
        let earlier = sizes.drop_last();
        law_gate_follows_history(limits, earlier);
        let before = earlier.fold_left(false, check);
        if sizes.fold_left(false, check) {
            if sizes[n] >= limits.max_disk_bytes {
                assert(0 <= n < sizes.len() && sizes[n] >= limits.max_disk_bytes);
            } else {
                let i = choose|i: int|
                    0 <= i < earlier.len() && #[trigger] earlier[i] >= limits.max_disk_bytes
                        && forall|j: int|
                        i < j < earlier.len() ==> !(#[trigger] earlier[j] < limits.max_disk_bytes
                            && earlier[j] <= limits.resume_bytes);
                assert(sizes[i] == earlier[i]);
                assert forall|j: int| i < j < sizes.len() implies !(#[trigger] sizes[j]
                    < limits.max_disk_bytes && sizes[j] <= limits.resume_bytes) by {
                    if j < n {
                        assert(earlier[j] == sizes[j]);
                    }
                }
            }
        }
        if exists|i: int|
            0 <= i < sizes.len() && #[trigger] sizes[i] >= limits.max_disk_bytes && forall|j: int|
                i < j < sizes.len() ==> !(#[trigger] sizes[j] < limits.max_disk_bytes && sizes[j]
                    <= limits.resume_bytes) {
            let i = choose|i: int|
                0 <= i < sizes.len() && #[trigger] sizes[i] >= limits.max_disk_bytes
                    && forall|j: int|
                    i < j < sizes.len() ==> !(#[trigger] sizes[j] < limits.max_disk_bytes
                        && sizes[j] <= limits.resume_bytes);
            if i < n {
                assert(earlier[i] == sizes[i]);
                assert forall|j: int| i < j < earlier.len() implies !(#[trigger] earlier[j]
                    < limits.max_disk_bytes && earlier[j] <= limits.resume_bytes) by {
                    assert(earlier[j] == sizes[j]);
                }
                assert(before);
                assert(sizes[n] == sizes.last());
            }
        }
    }
}

} // verus!
