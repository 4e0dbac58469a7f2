use tcp_sentinel::packet::{
    Flow, IpAddress, IpLayer, PacketManifest, Payload, Side, SideIdentifier, TcpFlags, TcpLayer,
};
use tcp_sentinel::sequence::{Sequence, SequenceRange};

pub fn tcp_packet(seq_no: u32, payload: &[u8]) -> PacketManifest<'static> {
    PacketManifest {
        ip: IpLayer { src: IpAddress::V4(0x01020304), dst: IpAddress::V4(0x02030405) },
        tcp: TcpLayer {
            src: 1011,
            dst: 2022,
            ack: 1,
            seq: seq_no,
            flags: TcpFlags { ack: true, ..Default::default() },
        },
        tcp_payload: Payload::from_vec(payload.to_vec()),
    }
}

#[test]
fn split_packet() {
    let payload = (66..77).collect::<Vec<_>>();
    let mut packet = tcp_packet(10, &payload);
    let another = packet.split_off(Sequence(15));
    assert_eq!(packet, tcp_packet(10, &payload[..5]));
    assert_eq!(another, tcp_packet(15, &payload[5..]));
}

#[test]
fn split_packet_at_either_end() {
    let payload = vec![1u8, 2, 3];
    let mut packet = tcp_packet(4, &payload);
    let rest = packet.split_off(Sequence(4));
    assert_eq!(packet, tcp_packet(4, &[]));
    assert_eq!(rest, tcp_packet(4, &payload));

    let mut packet = tcp_packet(4, &payload);
    let rest = packet.split_off(Sequence(7));
    assert_eq!(packet, tcp_packet(4, &payload));
    assert_eq!(rest, tcp_packet(7, &[]));
}

#[test]
fn split_of_borrowed_payload_round_trips() {
    let bytes: Vec<u8> = vec![5, 6, 7, 8];
    let mut packet = PacketManifest {
        ip: IpLayer { src: IpAddress::V4(1), dst: IpAddress::V4(2) },
        tcp: TcpLayer { src: 1, dst: 2, ack: 0, seq: 100, flags: TcpFlags::default() },
        tcp_payload: Payload::from_slice(&bytes),
    };
    let right = packet.split_off(Sequence(102));
    assert_eq!(packet.tcp_payload, Payload::from_slice(&bytes[..2]));
    assert_eq!(right.tcp.seq, 102);
    assert_eq!(right.tcp_payload, Payload::from_slice(&bytes[2..]));
}

#[test]
fn cloned_copies_the_payload() {
    let bytes: Vec<u8> = vec![9, 9, 1];
    let packet = PacketManifest {
        ip: IpLayer { src: IpAddress::V4(1), dst: IpAddress::V4(2) },
        tcp: TcpLayer { src: 1, dst: 2, ack: 0, seq: 3, flags: TcpFlags::default() },
        tcp_payload: Payload::from_slice(&bytes),
    };
    let owned = packet.cloned();
    assert_eq!(owned, packet);
}

#[test]
fn sub_payload_takes_a_range_relative_to_a_base() {
    let payload = Payload::from_vec(vec![10, 11, 12, 13, 14]);
    let range = SequenceRange { from: Sequence(21), to: Sequence(23) };
    let piece = payload.sub_payload(range, Sequence(20));
    assert_eq!(piece, Payload::from_vec(vec![11, 12, 13]));
}

#[test]
fn identify_tells_the_sides_apart() {
    let packet = tcp_packet(0, &[]);
    let client_flow = Flow::of_packet(&packet);
    let side_id = SideIdentifier::from_client_flow(client_flow);
    assert_eq!(side_id.identify(&packet), Side::Client);

    let reply = PacketManifest {
        ip: IpLayer { src: IpAddress::V4(0x02030405), dst: IpAddress::V4(0x01020304) },
        tcp: TcpLayer { src: 2022, dst: 1011, ack: 0, seq: 0, flags: TcpFlags::default() },
        tcp_payload: Payload::from_vec(Vec::new()),
    };
    assert_eq!(side_id.identify(&reply), Side::Server);
}

#[test]
fn reverse_swaps_the_endpoints() {
    let packet = tcp_packet(0, &[]);
    let flow = Flow::of_packet(&packet);
    let reversed = flow.reverse();
    assert_eq!(reversed.src_ip, flow.dst_ip);
    assert_eq!(reversed.src_port, flow.dst_port);
    assert_eq!(reversed.dst_ip, flow.src_ip);
    assert_eq!(reversed.dst_port, flow.src_port);
    assert_eq!(reversed.reverse(), flow);
}
