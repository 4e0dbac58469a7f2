#![allow(deprecated)]

use tcp_sentinel::event::{AttackReport, AttackReporter, BufferReporter, ConsoleReporter};
use tcp_sentinel::packet::{Flow, IpAddress};
use tcp_sentinel::utils::BitMask;

fn sample_report() -> AttackReport {
    let date = time::Date::try_from_ymd(2020, 1, 2).unwrap();
    let clock = time::Time::try_from_hms(3, 4, 5).unwrap();
    AttackReport::HandshakeHijack {
        time: time::PrimitiveDateTime::new(date, clock),
        packet_count: 2,
        flow: Flow {
            src_ip: IpAddress::V4(1),
            src_port: 10,
            dst_ip: IpAddress::V4(2),
            dst_port: 20,
        },
        hijack_seq: 6699,
        hijack_ack: 4,
    }
}

#[test]
fn console_reporter_latches() {
    let mut reporter = ConsoleReporter::default();
    assert!(!reporter.is_attack_detected());
    reporter.report_attack(sample_report());
    assert!(reporter.is_attack_detected());
}

#[test]
fn buffer_reporter_keeps_reports_and_latches() {
    let mut reporter = BufferReporter::new();
    assert!(!reporter.is_attack_detected());
    assert_eq!(reporter.reports().len(), 0);
    reporter.report_attack(sample_report());
    reporter.report_attack(sample_report());
    assert!(reporter.is_attack_detected());
    assert_eq!(reporter.reports().len(), 2);
    match &reporter.reports()[0] {
        AttackReport::HandshakeHijack { hijack_seq, hijack_ack, packet_count, .. } => {
            assert_eq!(*hijack_seq, 6699);
            assert_eq!(*hijack_ack, 4);
            assert_eq!(*packet_count, 2);
        },
    }
}

#[test]
fn bits_tests_every_bit_of_the_mask() {
    assert!(0xFFu8.bits(0x0F));
    assert!(!0xF0u8.bits(0x0F));
    assert!(0b1010u16.bits(0b1010));
    assert!(!0b1010u32.bits(0b0110));
    assert!(0xFFFF_FFFF_FFFF_FFFFu64.bits(1));
}
