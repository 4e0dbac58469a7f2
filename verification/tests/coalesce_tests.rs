use tcp_sentinel::ordered_coalesce::{OrderedCoalesce, OverlapBlock};
use tcp_sentinel::packet::{IpAddress, IpLayer, PacketManifest, Payload, TcpFlags, TcpLayer};
use tcp_sentinel::sequence::{Sequence, SequenceRange};

fn tcp_packet(seq_no: u32, payload: &[u8]) -> PacketManifest<'static> {
    PacketManifest {
        ip: IpLayer { src: IpAddress::V4(0x01020304), dst: IpAddress::V4(0x02030405) },
        tcp: TcpLayer {
            src: 1011,
            dst: 2022,
            ack: 1,
            seq: seq_no,
            flags: TcpFlags { ack: true, ..Default::default() },
        },
        tcp_payload: Payload::from_vec(payload.to_vec()),
    }
}

#[test]
fn not_detect_overlapping_block_if_there_is_none() {
    let mut detector = OrderedCoalesce::new();
    assert_eq!(Some(vec![]), detector.insert(tcp_packet(0, &[1, 2, 3])));
    assert_eq!(Some(vec![]), detector.insert(tcp_packet(6, &[7, 8])));
    assert_eq!(Some(vec![]), detector.insert(tcp_packet(3, &[4, 5, 6])));
}

#[test]
fn detect_coalesce_within_single_packet() {
    let mut detector = OrderedCoalesce::new();
    assert_eq!(Some(vec![]), detector.insert(tcp_packet(0, &[1, 2, 3, 4, 5, 6])));
    let overlaps = detector.insert(tcp_packet(1, &[10, 11, 12]));
    let overlap_expected = OverlapBlock {
        winner: vec![2, 3, 4],
        loser: vec![10, 11, 12],
        range: SequenceRange { from: Sequence(1), to: Sequence(3) },
    };
    assert_eq!(overlaps, Some(vec![overlap_expected]));
}

#[test]
fn not_detect_overlap_if_competitors_are_equal() {
    let mut detector = OrderedCoalesce::new();
    assert_eq!(Some(vec![]), detector.insert(tcp_packet(0, &[1, 2, 3])));
    assert_eq!(Some(vec![]), detector.insert(tcp_packet(6, &[7, 8])));
    assert_eq!(Some(vec![]), detector.insert(tcp_packet(3, &[4, 5, 6])));

    assert_eq!(Some(vec![]), detector.insert(tcp_packet(2, &[3, 4, 5, 6, 7])));
}

#[test]
fn detect_overlap_within_several_packets() {
    let mut detector = OrderedCoalesce::new();
    assert_eq!(Some(vec![]), detector.insert(tcp_packet(0, &[1, 2, 3])));
    assert_eq!(Some(vec![]), detector.insert(tcp_packet(3, &[4, 5, 6])));

    let overlap = detector.insert(tcp_packet(2, &[10, 11]));
    let expected_overlap1 = OverlapBlock {
        winner: vec![3],
        loser: vec![10],
        range: SequenceRange { from: Sequence(2), to: Sequence(2) },
    };
    let expected_overlap2 = OverlapBlock {
        winner: vec![4],
        loser: vec![11],
        range: SequenceRange { from: Sequence(3), to: Sequence(3) },
    };
    assert_eq!(overlap, Some(vec![expected_overlap1, expected_overlap2]))
}

#[test]
fn split_packet_into_sub_packets() {
    let payload = (0..10).collect::<Vec<_>>();
    let original_packet = tcp_packet(0, &payload);
    let ranges = vec![
        SequenceRange { from: Sequence(0), to: Sequence(0) },
        SequenceRange { from: Sequence(3), to: Sequence(6) },
        SequenceRange { from: Sequence(8), to: Sequence(9) },
    ];

    let actual = OrderedCoalesce::split_packet_into_sub_packets(&original_packet, &ranges);
    let expected = vec![
        (ranges[0], tcp_packet(0, &payload[0..=0])),
        (ranges[1], tcp_packet(3, &payload[3..=6])),
        (ranges[2], tcp_packet(8, &payload[8..=9])),
    ];

    assert_eq!(actual, expected);
}

#[test]
fn total_size_is_the_sum_of_stored_range_sizes() {
    let mut detector = OrderedCoalesce::new();
    assert_eq!(detector.total_size(), 0);
    detector.insert(tcp_packet(0, &[1, 2, 3]));
    assert_eq!(detector.total_size(), 3);
    detector.insert(tcp_packet(6, &[7, 8]));
    assert_eq!(detector.total_size(), 5);
    detector.insert(tcp_packet(3, &[4, 5, 6]));
    assert_eq!(detector.total_size(), 8);
    // Re-sending bytes that are already stored adds nothing.
    detector.insert(tcp_packet(0, &[1, 2, 3, 4]));
    assert_eq!(detector.total_size(), 8);
}

#[test]
fn stored_ranges_stay_sorted_whatever_the_insert_order() {
    let mut detector = OrderedCoalesce::new();
    detector.insert(tcp_packet(6, &[7, 8]));
    detector.insert(tcp_packet(0, &[1, 2, 3]));
    detector.insert(tcp_packet(3, &[4, 5, 6]));

    let ranges = detector.stored_ranges();
    assert_eq!(ranges.len(), 3);
    for k in 0..ranges.len() - 1 {
        assert!(ranges[k].to.0 < ranges[k + 1].from.0);
    }
    assert_eq!(ranges[0].from.0, 0);
    assert_eq!(ranges[2].to.0, 7);
}

#[test]
fn empty_payload_inserts_are_no_ops() {
    let mut detector = OrderedCoalesce::new();
    detector.insert(tcp_packet(0, &[1, 2, 3]));
    let r = detector.insert(tcp_packet(1, &[]));
    assert_eq!(r, Some(vec![]));
    assert_eq!(detector.total_size(), 3);
    assert_eq!(detector.stored_ranges().len(), 1);
}

#[test]
fn only_uncovered_bytes_are_stored() {
    let mut detector = OrderedCoalesce::new();
    detector.insert(tcp_packet(2, &[12, 13]));
    // The arriving packet disagrees on the overlap; stored bytes win and
    // only the uncovered pieces are added.
    let overlaps = detector.insert(tcp_packet(0, &[20, 21, 22, 23, 24]));
    assert_eq!(
        overlaps,
        Some(vec![OverlapBlock {
            winner: vec![12, 13],
            loser: vec![22, 23],
            range: SequenceRange { from: Sequence(2), to: Sequence(3) },
        }])
    );
    let ranges = detector.stored_ranges();
    assert_eq!(ranges.len(), 3);
    assert_eq!((ranges[0].from.0, ranges[0].to.0), (0, 1));
    assert_eq!((ranges[1].from.0, ranges[1].to.0), (2, 3));
    assert_eq!((ranges[2].from.0, ranges[2].to.0), (4, 4));
    assert_eq!(detector.total_size(), 5);
}

#[test]
fn stores_up_to_the_top_of_the_sequence_space() {
    let mut detector = OrderedCoalesce::new();
    assert_eq!(Some(vec![]), detector.insert(tcp_packet(0xFFFF_FFFD, &[1, 2, 3])));
    assert_eq!(detector.total_size(), 3);
    let ranges = detector.stored_ranges();
    assert_eq!((ranges[0].from.0, ranges[0].to.0), (0xFFFF_FFFD, 0xFFFF_FFFF));
    // The same bytes again: full overlap, full agreement, nothing added.
    assert_eq!(Some(vec![]), detector.insert(tcp_packet(0xFFFF_FFFD, &[1, 2, 3])));
    assert_eq!(detector.total_size(), 3);
}
