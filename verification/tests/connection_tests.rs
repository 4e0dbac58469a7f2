use tcp_sentinel::connection_state::{Connection, ConnectionOptions, TcpState};
use tcp_sentinel::event::{AttackReporter, BufferReporter};
use tcp_sentinel::packet::{IpAddress, IpLayer, PacketManifest, Payload, TcpFlags, TcpLayer};

fn client_ip() -> IpLayer {
    IpLayer { src: IpAddress::V4(0x01020304), dst: IpAddress::V4(0x02030405) }
}

fn server_ip() -> IpLayer {
    IpLayer { src: IpAddress::V4(0x02030405), dst: IpAddress::V4(0x01020304) }
}

#[test]
fn detect_tcp_hijack() {
    let connection_options = ConnectionOptions {
        skip_hijack_detection_count: 12,
        attack_reporter: BufferReporter::new(),
    };

    // initial packet

    let packet = PacketManifest {
        ip: client_ip(),
        tcp: TcpLayer {
            src: 1,
            dst: 2,
            seq: 3,
            flags: TcpFlags { syn: true, ack: false, ..Default::default() },
            ..Default::default()
        },
        tcp_payload: Payload::from_vec(Vec::new()),
    };
    let mut connection = Connection::from_packet(packet, connection_options);
    assert_eq!(connection.state(), TcpState::ConnectionRequest, "invalid state transaction");

    // next packet
    connection.receive_packet(PacketManifest {
        ip: server_ip(),
        tcp: TcpLayer {
            src: 2,
            dst: 1,
            seq: 9,
            ack: 4,
            flags: TcpFlags { syn: true, ack: true, ..Default::default() },
        },
        tcp_payload: Payload::from_vec(Vec::new()),
    });
    assert_eq!(connection.state(), TcpState::ConnectionEstablished, "invalid state transaction");

    // test hijack
    connection.receive_packet(PacketManifest {
        ip: server_ip(),
        tcp: TcpLayer {
            src: 2,
            dst: 1,
            seq: 6699,
            ack: 4,
            flags: TcpFlags { syn: true, ack: true, ..Default::default() },
        },
        tcp_payload: Payload::from_vec(Vec::new()),
    });

    let reports_count = connection.reporter().reports().len();
    assert_eq!(reports_count, 1, "hijack detection fail");

    // Going to data transfer state
    connection.receive_packet(PacketManifest {
        ip: client_ip(),
        tcp: TcpLayer {
            src: 1,
            dst: 2,
            seq: 4,
            ack: 10,
            flags: TcpFlags { syn: false, ack: true, ..Default::default() },
        },
        tcp_payload: Payload::from_vec(Vec::new()),
    });
    assert_eq!(connection.state(), TcpState::DataTransfer, "invalid state transition");

    // test hijack in transfer state
    connection.receive_packet(PacketManifest {
        ip: server_ip(),
        tcp: TcpLayer {
            src: 2,
            dst: 1,
            seq: 7711,
            ack: 4,
            flags: TcpFlags { syn: true, ack: true, ..Default::default() },
        },
        tcp_payload: Payload::from_vec(Vec::new()),
    });
    let reports_count = connection.reporter().reports().len();
    assert_eq!(reports_count, 2, "hijack detection fail");
}

#[test]
fn handshake_anomalies_are_dropped_silently() {
    let options = ConnectionOptions {
        skip_hijack_detection_count: 0,
        attack_reporter: BufferReporter::new(),
    };
    let syn = PacketManifest {
        ip: client_ip(),
        tcp: TcpLayer {
            src: 1,
            dst: 2,
            seq: 3,
            flags: TcpFlags { syn: true, ack: false, ..Default::default() },
            ..Default::default()
        },
        tcp_payload: Payload::from_vec(Vec::new()),
    };
    let mut connection = Connection::from_packet(syn, options);

    // Wrong acknowledgement number: dropped, state unchanged.
    connection.receive_packet(PacketManifest {
        ip: server_ip(),
        tcp: TcpLayer {
            src: 2,
            dst: 1,
            seq: 9,
            ack: 77,
            flags: TcpFlags { syn: true, ack: true, ..Default::default() },
        },
        tcp_payload: Payload::from_vec(Vec::new()),
    });
    assert_eq!(connection.state(), TcpState::ConnectionRequest);

    // Right side but missing SYN: dropped too.
    connection.receive_packet(PacketManifest {
        ip: server_ip(),
        tcp: TcpLayer {
            src: 2,
            dst: 1,
            seq: 9,
            ack: 4,
            flags: TcpFlags { syn: false, ack: true, ..Default::default() },
        },
        tcp_payload: Payload::from_vec(Vec::new()),
    });
    assert_eq!(connection.state(), TcpState::ConnectionRequest);
    assert_eq!(connection.reporter().reports().len(), 0);
}

#[test]
fn first_packet_without_syn_means_mid_stream() {
    let options = ConnectionOptions {
        skip_hijack_detection_count: 1000,
        attack_reporter: BufferReporter::new(),
    };
    let data = PacketManifest {
        ip: client_ip(),
        tcp: TcpLayer {
            src: 1,
            dst: 2,
            seq: 55,
            ack: 10,
            flags: TcpFlags { ack: true, ..Default::default() },
        },
        tcp_payload: Payload::from_vec(vec![1, 2, 3]),
    };
    let mut connection = Connection::from_packet(data, options);
    assert_eq!(connection.state(), TcpState::DataTransfer);

    // The first server-side packet teaches the expected server sequence;
    // no report is produced for it.
    connection.receive_packet(PacketManifest {
        ip: server_ip(),
        tcp: TcpLayer {
            src: 2,
            dst: 1,
            seq: 90,
            ack: 59,
            flags: TcpFlags { ack: true, ..Default::default() },
        },
        tcp_payload: Payload::from_vec(Vec::new()),
    });
    assert_eq!(connection.state(), TcpState::DataTransfer);
    assert_eq!(connection.reporter().reports().len(), 0);
}

#[test]
fn first_packet_with_rst_closes_at_once() {
    let options = ConnectionOptions {
        skip_hijack_detection_count: 1000,
        attack_reporter: BufferReporter::new(),
    };
    let rst = PacketManifest {
        ip: client_ip(),
        tcp: TcpLayer {
            src: 1,
            dst: 2,
            seq: 3,
            flags: TcpFlags { rst: true, ..Default::default() },
            ..Default::default()
        },
        tcp_payload: Payload::from_vec(Vec::new()),
    };
    let connection = Connection::from_packet(rst, options);
    assert_eq!(connection.state(), TcpState::Closed);
}

#[test]
fn reporters_latch_after_the_first_report() {
    let reporter = BufferReporter::new();
    assert!(!reporter.is_attack_detected());
}
