//! Attack reports and the sinks that take them.

use vstd::prelude::*;

use std::io::Write;

use crate::packet::Flow;

verus! {

#[verifier::external_type_specification]
#[verifier::external_body]
pub struct ExPrimitiveDateTime(time::PrimitiveDateTime);

/// Relies on time's `PrimitiveDateTime::now`: the current wall-clock date
/// and time. Nothing is assumed of the value.
#[verifier::external_body]
#[allow(deprecated)]
pub(crate) fn now_datetime() -> time::PrimitiveDateTime {
    time::PrimitiveDateTime::now()
}

/// A detected attack. Further kinds than the handshake hijack are
/// anticipated.
#[derive(Debug)]
pub enum AttackReport {
    HandshakeHijack {
        time: time::PrimitiveDateTime,
        packet_count: u64,
        flow: Flow,
        hijack_seq: u32,
        hijack_ack: u32,
    },
}

/// A sink for attack reports.
///
/// A connection asks `is_attack_detected` before reporting during the
/// handshake and hands every detection to `report_attack`; a sink keeps the
/// reports it was handed, latching the fact that something was seen.
pub trait AttackReporter: Sized {
    /// Whether a report was taken.
    spec fn spec_is_attack_detected(&self) -> bool;

    /// The reports taken so far, oldest first.
    spec fn spec_reports(&self) -> Seq<AttackReport>;

    /// Whether an attack was reported to this sink.
    fn is_attack_detected(&self) -> (r: bool)
        ensures
            r == self.spec_is_attack_detected(),
    ;

    /// Takes one report and latches.
    fn report_attack(&mut self, report: AttackReport)
        ensures
            final(self).spec_reports() == old(self).spec_reports().push(report),
            final(self).spec_is_attack_detected(),
    ;
}

/// Relies on std's standard-error handle and write machinery: prints one
/// line. Nothing is assumed of the outcome.
#[verifier::external_body]
fn emit_report_line(report: &AttackReport) {
    let _ = writeln!(std::io::stderr(), "Reported attack: {:?}", report);
}

/// The default report sink: writes a debug-formatted line to standard error
/// for every report and latches.
pub struct ConsoleReporter {
    attack_reported: bool,
    reports: Ghost<Seq<AttackReport>>,
}

impl Default for ConsoleReporter {
    /// A sink that has seen nothing yet.
    fn default() -> (r: ConsoleReporter)
        ensures
            !r.spec_is_attack_detected(),
            r.spec_reports() == Seq::<AttackReport>::empty(),
    {
        ConsoleReporter { attack_reported: false, reports: Ghost(Seq::empty()) }
    }
}

impl AttackReporter for ConsoleReporter {
    closed spec fn spec_is_attack_detected(&self) -> bool {
        self.attack_reported
    }

    closed spec fn spec_reports(&self) -> Seq<AttackReport> {
        self.reports@
    }

    fn is_attack_detected(&self) -> (r: bool) {
        self.attack_reported
    }

    fn report_attack(&mut self, report: AttackReport) {
        self.attack_reported = true;
        emit_report_line(&report);
        proof {
            self.reports@ = self.reports@.push(report);
        }
    }
}

/// A report sink that keeps the reports in memory, for tests and tooling.
pub struct BufferReporter {
    attack_reported: bool,
    reports: Vec<AttackReport>,
}

impl BufferReporter {
    /// A sink that has seen nothing yet.
    pub fn new() -> (r: BufferReporter)
        ensures
            !r.spec_is_attack_detected(),
            r.spec_reports() == Seq::<AttackReport>::empty(),
    {
        BufferReporter { attack_reported: false, reports: Vec::new() }
    }

    /// The reports taken so far, oldest first.
    pub fn reports(&self) -> (r: &Vec<AttackReport>)
        ensures
            r@ == self.spec_reports(),
    {
        &self.reports
    }
}

impl AttackReporter for BufferReporter {
    closed spec fn spec_is_attack_detected(&self) -> bool {
        self.attack_reported
    }

    closed spec fn spec_reports(&self) -> Seq<AttackReport> {
        self.reports@
    }

    fn is_attack_detected(&self) -> (r: bool) {
        self.attack_reported
    }

    fn report_attack(&mut self, report: AttackReport) {
        self.attack_reported = true;
        self.reports.push(report);
    }
}

} // verus!
