//! Decoding captured Ethernet frames into packet manifests.
//!
//! The byte-level header reads are done by the pdu crate. Its parsers and
//! accessors are declared here with the byte-level facts their source shows
//! — an accessor returns a fixed big-endian field of the buffer the parser
//! was built over — and the decoding on top of them is verified against
//! those facts.

use vstd::prelude::*;

use crate::packet::{IpAddress, IpLayer, PacketManifest, Payload, TcpFlags, TcpLayer};

verus! {

pub const ETHERTYPE_IPV4: u16 = 0x0800;

pub const ETHERTYPE_IPV6: u16 = 0x86DD;

pub const TPID_DOT1Q: u16 = 0x8100;

#[verifier::external_type_specification]
#[verifier::external_body]
pub struct ExEthernetPdu<'a>(pdu::EthernetPdu<'a>);

#[verifier::external_type_specification]
#[verifier::external_body]
pub struct ExIpv4Pdu<'a>(pdu::Ipv4Pdu<'a>);

#[verifier::external_type_specification]
#[verifier::external_body]
pub struct ExIpv6Pdu<'a>(pdu::Ipv6Pdu<'a>);

#[verifier::external_type_specification]
#[verifier::external_body]
pub struct ExTcpPdu<'a>(pdu::TcpPdu<'a>);

#[verifier::external_type_specification]
#[verifier::external_body]
pub struct ExPduError(pdu::Error);

/// The buffer a pdu Ethernet parser was built over.
pub uninterp spec fn ethernet_pdu_bytes(p: pdu::EthernetPdu) -> Seq<u8>;

/// The buffer a pdu IPv4 parser was built over.
pub uninterp spec fn ipv4_pdu_bytes(p: pdu::Ipv4Pdu) -> Seq<u8>;

/// The buffer a pdu IPv6 parser was built over.
pub uninterp spec fn ipv6_pdu_bytes(p: pdu::Ipv6Pdu) -> Seq<u8>;

/// The buffer a pdu TCP parser was built over.
pub uninterp spec fn tcp_pdu_bytes(p: pdu::TcpPdu) -> Seq<u8>;

/// The length of an IPv6 header together with its extension headers, as
/// pdu's walk of the extension-header chain computes it.
pub uninterp spec fn ipv6_header_len(s: Seq<u8>) -> int;

/// Whether pdu accepts a buffer as an IPv6 packet: a function of the bytes
/// alone, true when the fixed-header checks pass and the walk of the
/// extension-header chain stays within the buffer.
pub uninterp spec fn ipv6_ok(s: Seq<u8>) -> bool;

/// The big-endian 16-bit value at byte offset `i`.
pub open spec fn be16(s: Seq<u8>, i: int) -> u16 {
    (s[i] * 0x100 + s[i + 1]) as u16
}

/// The big-endian 32-bit value at byte offset `i`.
pub open spec fn be32(s: Seq<u8>, i: int) -> u32 {
    (s[i] * 0x100_0000 + s[i + 1] * 0x1_0000 + s[i + 2] * 0x100 + s[i + 3]) as u32
}

/// The big-endian 64-bit value at byte offset `i`.
pub open spec fn be64(s: Seq<u8>, i: int) -> u64 {
    (s[i] * 0x100_0000_0000_0000 + s[i + 1] * 0x1_0000_0000_0000 + s[i + 2] * 0x100_0000_0000 + s[
        i + 3
    ] * 0x1_0000_0000 + s[i + 4] * 0x100_0000 + s[i + 5] * 0x1_0000 + s[i + 6] * 0x100 + s[i + 7]) as u64
}

/// The big-endian 128-bit value at byte offset `i`.
pub open spec fn be128(s: Seq<u8>, i: int) -> u128 {
    (be64(s, i) * 0x1_0000_0000_0000_0000 + be64(s, i + 8)) as u128
}

/// The tag protocol identifier of an Ethernet frame.
pub open spec fn eth_tpid(s: Seq<u8>) -> u16 {
    be16(s, 12)
}

/// The EtherType of a frame, behind the 802.1Q tag if one is present.
pub open spec fn eth_ethertype(s: Seq<u8>) -> u16 {
    if eth_tpid(s) == TPID_DOT1Q {
        be16(s, 16)
    } else {
        eth_tpid(s)
    }
}

/// The length of a frame's Ethernet header.
pub open spec fn eth_header_len(s: Seq<u8>) -> int {
    if eth_tpid(s) == TPID_DOT1Q {
        18
    } else {
        14
    }
}

/// The conditions under which pdu accepts a buffer as an Ethernet frame.
pub open spec fn eth_ok(s: Seq<u8>) -> bool {
    &&& s.len() >= 14
    &&& eth_tpid(s) == TPID_DOT1Q ==> s.len() >= 18
    &&& eth_ethertype(s) >= 0x0600
}

/// The length of an IPv4 header, from its header-length nibble.
pub open spec fn ipv4_ihl(s: Seq<u8>) -> int {
    (s[0] & 0xF) * 4
}

/// The conditions under which pdu accepts a buffer as an IPv4 packet.
pub open spec fn ipv4_ok(s: Seq<u8>) -> bool {
    &&& s.len() >= 20
    &&& ipv4_ihl(s) >= 20
    &&& s.len() >= ipv4_ihl(s)
    &&& be16(s, 2) >= ipv4_ihl(s)
    &&& (s[0] >> 4) == 4
}

/// The checks on an IPv6 packet's fixed header; pdu's full acceptance,
/// [`ipv6_ok`], also walks the extension-header chain.
pub open spec fn ipv6_basic_ok(s: Seq<u8>) -> bool {
    &&& s.len() >= 40
    &&& (s[0] >> 4) == 6
}

/// The length of a TCP header, from its data-offset nibble.
pub open spec fn tcp_data_offset(s: Seq<u8>) -> int {
    (s[12] >> 4) * 4
}

/// The conditions under which pdu accepts a buffer as a TCP segment.
pub open spec fn tcp_ok(s: Seq<u8>) -> bool {
    &&& s.len() >= 20
    &&& s.len() >= tcp_data_offset(s)
}

/// Relies on pdu's EthernetPdu::new: it accepts a buffer of at least one
/// header's length whose EtherType is no 802.3 length field, and holds that
/// buffer.
pub assume_specification<'a>[ pdu::EthernetPdu::<'a>::new ](buffer: &'a [u8]) -> (r: Result<
    pdu::EthernetPdu<'a>,
    pdu::Error,
>)
    ensures
        r is Ok <==> eth_ok(buffer@),
        r matches Ok(p) ==> ethernet_pdu_bytes(p) == buffer@,
;

/// Relies on pdu's EthernetPdu::ethertype: the EtherType field, behind the
/// 802.1Q tag if one is present.
pub assume_specification<'a>[ pdu::EthernetPdu::<'a>::ethertype ](p: &'a pdu::EthernetPdu<'a>) -> (r:
    u16)
    requires
        eth_ok(ethernet_pdu_bytes(*p)),
    ensures
        r == eth_ethertype(ethernet_pdu_bytes(*p)),
;

/// Relies on pdu's EthernetPdu::computed_ihl: 18 bytes with an 802.1Q tag,
/// 14 without.
pub assume_specification<'a>[ pdu::EthernetPdu::<'a>::computed_ihl ](p: &'a pdu::EthernetPdu<'a>) -> (r:
    usize)
    requires
        eth_ok(ethernet_pdu_bytes(*p)),
    ensures
        r == eth_header_len(ethernet_pdu_bytes(*p)),
;

/// Relies on pdu's Ipv4Pdu::new: it accepts a version-4 buffer at least as
/// long as its header length, which is at least 20 and within the total
/// length field, and holds that buffer.
pub assume_specification<'a>[ pdu::Ipv4Pdu::<'a>::new ](buffer: &'a [u8]) -> (r: Result<
    pdu::Ipv4Pdu<'a>,
    pdu::Error,
>)
    ensures
        r is Ok <==> ipv4_ok(buffer@),
        r matches Ok(p) ==> ipv4_pdu_bytes(p) == buffer@,
;

/// Relies on pdu's Ipv4Pdu::computed_ihl: the header-length nibble times
/// four.
pub assume_specification<'a>[ pdu::Ipv4Pdu::<'a>::computed_ihl ](p: &'a pdu::Ipv4Pdu<'a>) -> (r:
    usize)
    requires
        ipv4_ok(ipv4_pdu_bytes(*p)),
    ensures
        r == ipv4_ihl(ipv4_pdu_bytes(*p)),
;

/// Relies on pdu's Ipv4Pdu::source_address: bytes 12 to 15 of the header.
pub assume_specification<'a>[ pdu::Ipv4Pdu::<'a>::source_address ](p: &'a pdu::Ipv4Pdu<'a>) -> (r:
    [u8; 4])
    requires
        ipv4_ok(ipv4_pdu_bytes(*p)),
    ensures
        r@ == ipv4_pdu_bytes(*p).subrange(12, 16),
;

/// Relies on pdu's Ipv4Pdu::destination_address: bytes 16 to 19 of the
/// header.
pub assume_specification<'a>[ pdu::Ipv4Pdu::<'a>::destination_address ](p: &'a pdu::Ipv4Pdu<'a>) -> (r:
    [u8; 4])
    requires
        ipv4_ok(ipv4_pdu_bytes(*p)),
    ensures
        r@ == ipv4_pdu_bytes(*p).subrange(16, 20),
;

/// Relies on pdu's Ipv6Pdu::new: it accepts a version-6 buffer of at least
/// 40 bytes whose extension-header chain it could walk within the buffer,
/// and holds that buffer.
pub assume_specification<'a>[ pdu::Ipv6Pdu::<'a>::new ](buffer: &'a [u8]) -> (r: Result<
    pdu::Ipv6Pdu<'a>,
    pdu::Error,
>)
    ensures
        r is Ok <==> ipv6_ok(buffer@),
        r matches Ok(p) ==> ({
            &&& ipv6_pdu_bytes(p) == buffer@
            &&& ipv6_basic_ok(buffer@)
            &&& 40 <= ipv6_header_len(buffer@) <= buffer@.len()
        }),
;

/// Relies on pdu's Ipv6Pdu::computed_ihl: the walk of the extension-header
/// chain, whose outcome its constructor validated against the buffer.
pub assume_specification<'a>[ pdu::Ipv6Pdu::<'a>::computed_ihl ](p: &'a pdu::Ipv6Pdu<'a>) -> (r:
    usize)
    requires
        ipv6_basic_ok(ipv6_pdu_bytes(*p)),
        40 <= ipv6_header_len(ipv6_pdu_bytes(*p)) <= ipv6_pdu_bytes(*p).len(),
    ensures
        r == ipv6_header_len(ipv6_pdu_bytes(*p)),
;

/// Relies on pdu's Ipv6Pdu::source_address: bytes 8 to 23 of the header.
pub assume_specification<'a>[ pdu::Ipv6Pdu::<'a>::source_address ](p: &'a pdu::Ipv6Pdu<'a>) -> (r:
    [u8; 16])
    requires
        ipv6_basic_ok(ipv6_pdu_bytes(*p)),
    ensures
        r@ == ipv6_pdu_bytes(*p).subrange(8, 24),
;

/// Relies on pdu's Ipv6Pdu::destination_address: bytes 24 to 39 of the
/// header.
pub assume_specification<'a>[ pdu::Ipv6Pdu::<'a>::destination_address ](p: &'a pdu::Ipv6Pdu<'a>) -> (r:
    [u8; 16])
    requires
        ipv6_basic_ok(ipv6_pdu_bytes(*p)),
    ensures
        r@ == ipv6_pdu_bytes(*p).subrange(24, 40),
;

/// Relies on pdu's TcpPdu::new: it accepts a buffer of at least 20 bytes
/// and at least its data offset, and holds that buffer.
pub assume_specification<'a>[ pdu::TcpPdu::<'a>::new ](buffer: &'a [u8]) -> (r: Result<
    pdu::TcpPdu<'a>,
    pdu::Error,
>)
    ensures
        r is Ok <==> tcp_ok(buffer@),
        r matches Ok(p) ==> tcp_pdu_bytes(p) == buffer@,
;

/// Relies on pdu's TcpPdu::source_port: bytes 0 and 1, big-endian.
pub assume_specification<'a>[ pdu::TcpPdu::<'a>::source_port ](p: &'a pdu::TcpPdu<'a>) -> (r: u16)
    requires
        tcp_ok(tcp_pdu_bytes(*p)),
    ensures
        r == be16(tcp_pdu_bytes(*p), 0),
;

/// Relies on pdu's TcpPdu::destination_port: bytes 2 and 3, big-endian.
pub assume_specification<'a>[ pdu::TcpPdu::<'a>::destination_port ](p: &'a pdu::TcpPdu<'a>) -> (r:
    u16)
    requires
        tcp_ok(tcp_pdu_bytes(*p)),
    ensures
        r == be16(tcp_pdu_bytes(*p), 2),
;

/// Relies on pdu's TcpPdu::sequence_number: bytes 4 to 7, big-endian.
pub assume_specification<'a>[ pdu::TcpPdu::<'a>::sequence_number ](p: &'a pdu::TcpPdu<'a>) -> (r:
    u32)
    requires
        tcp_ok(tcp_pdu_bytes(*p)),
    ensures
        r == be32(tcp_pdu_bytes(*p), 4),
;

/// Relies on pdu's TcpPdu::acknowledgement_number: bytes 8 to 11,
/// big-endian.
pub assume_specification<'a>[ pdu::TcpPdu::<'a>::acknowledgement_number ](p: &'a pdu::TcpPdu<'a>) -> (r:
    u32)
    requires
        tcp_ok(tcp_pdu_bytes(*p)),
    ensures
        r == be32(tcp_pdu_bytes(*p), 8),
;

/// Relies on pdu's TcpPdu::computed_data_offset: the data-offset nibble
/// times four.
pub assume_specification<'a>[ pdu::TcpPdu::<'a>::computed_data_offset ](p: &'a pdu::TcpPdu<'a>) -> (r:
    usize)
    requires
        tcp_ok(tcp_pdu_bytes(*p)),
    ensures
        r == tcp_data_offset(tcp_pdu_bytes(*p)),
;

/// Relies on pdu's TcpPdu::fin: bit 0 of byte 13.
pub assume_specification<'a>[ pdu::TcpPdu::<'a>::fin ](p: &'a pdu::TcpPdu<'a>) -> (r: bool)
    requires
        tcp_ok(tcp_pdu_bytes(*p)),
    ensures
        r == ((tcp_pdu_bytes(*p)[13] & 0x1) != 0),
;

/// Relies on pdu's TcpPdu::syn: bit 1 of byte 13.
pub assume_specification<'a>[ pdu::TcpPdu::<'a>::syn ](p: &'a pdu::TcpPdu<'a>) -> (r: bool)
    requires
        tcp_ok(tcp_pdu_bytes(*p)),
    ensures
        r == ((tcp_pdu_bytes(*p)[13] & 0x2) != 0),
;

/// Relies on pdu's TcpPdu::rst: bit 2 of byte 13.
pub assume_specification<'a>[ pdu::TcpPdu::<'a>::rst ](p: &'a pdu::TcpPdu<'a>) -> (r: bool)
    requires
        tcp_ok(tcp_pdu_bytes(*p)),
    ensures
        r == ((tcp_pdu_bytes(*p)[13] & 0x4) != 0),
;

/// Relies on pdu's TcpPdu::ack: bit 4 of byte 13.
pub assume_specification<'a>[ pdu::TcpPdu::<'a>::ack ](p: &'a pdu::TcpPdu<'a>) -> (r: bool)
    requires
        tcp_ok(tcp_pdu_bytes(*p)),
    ensures
        r == ((tcp_pdu_bytes(*p)[13] & 0x10) != 0),
;

/// The TCP flags record a segment's byte 13 encodes.
pub open spec fn spec_tcp_flags(s: Seq<u8>) -> TcpFlags {
    TcpFlags {
        syn: (s[13] & 0x2) != 0,
        ack: (s[13] & 0x10) != 0,
        fin: (s[13] & 0x1) != 0,
        rst: (s[13] & 0x4) != 0,
    }
}

/// The manifest a TCP segment buffer `s` decodes to, under the IP layer
/// `ip`.
pub open spec fn spec_tcp_manifest(m: PacketManifest, ip: IpLayer, s: Seq<u8>) -> bool {
    &&& m.ip == ip
    &&& m.tcp.src == be16(s, 0)
    &&& m.tcp.dst == be16(s, 2)
    &&& m.tcp.seq == be32(s, 4)
    &&& m.tcp.ack == be32(s, 8)
    &&& m.tcp.flags == spec_tcp_flags(s)
    &&& m.tcp_payload@ == s.skip(tcp_data_offset(s))
}

/// The manifest an IPv4 packet buffer `s` decodes to.
pub open spec fn spec_ipv4_manifest(m: PacketManifest, s: Seq<u8>) -> bool {
    spec_tcp_manifest(
        m,
        IpLayer { src: IpAddress::V4(be32(s, 12)), dst: IpAddress::V4(be32(s, 16)) },
        s.skip(ipv4_ihl(s)),
    )
}

/// The manifest an IPv6 packet buffer `s` decodes to.
pub open spec fn spec_ipv6_manifest(m: PacketManifest, s: Seq<u8>) -> bool {
    spec_tcp_manifest(
        m,
        IpLayer { src: IpAddress::V6(be128(s, 8)), dst: IpAddress::V6(be128(s, 24)) },
        s.skip(ipv6_header_len(s)),
    )
}

/// The big-endian 32-bit value of four bytes.
fn u32_from_be_quad(a: &[u8; 4]) -> (r: u32)
    ensures
        r == be32(a@, 0),
{
    (a[0] as u32) * 0x100_0000 + (a[1] as u32) * 0x1_0000 + (a[2] as u32) * 0x100 + (a[3] as u32)
}

/// The big-endian 128-bit value of sixteen bytes.
fn u128_from_be_sixteen(a: &[u8; 16]) -> (r: u128)
    ensures
        r == be128(a@, 0),
{
    let hi: u64 = (a[0] as u64) * 0x100_0000_0000_0000 + (a[1] as u64) * 0x1_0000_0000_0000 + (
    a[2] as u64) * 0x100_0000_0000 + (a[3] as u64) * 0x1_0000_0000 + (a[4] as u64) * 0x100_0000 + (
    a[5] as u64) * 0x1_0000 + (a[6] as u64) * 0x100 + (a[7] as u64);
    let lo: u64 = (a[8] as u64) * 0x100_0000_0000_0000 + (a[9] as u64) * 0x1_0000_0000_0000 + (
    a[10] as u64) * 0x100_0000_0000 + (a[11] as u64) * 0x1_0000_0000 + (a[12] as u64) * 0x100_0000
        + (a[13] as u64) * 0x1_0000 + (a[14] as u64) * 0x100 + (a[15] as u64);
    (hi as u128) * 0x1_0000_0000_0000_0000 + (lo as u128)
}

/// Decodes a TCP segment under the given IP layer.
///
/// The segment parses exactly when pdu accepts it; the manifest carries the
/// segment's ports, sequence and acknowledgement numbers, flags, and the
/// bytes past the data offset as its payload, borrowed from the buffer.
pub fn parse_tcp<'a>(ip: IpLayer, buffer: &'a [u8]) -> (r: Option<PacketManifest<'a>>)
    ensures
        r is Some <==> tcp_ok(buffer@),
        r matches Some(m) ==> spec_tcp_manifest(m, ip, buffer@),
{
    let tcp_pdu = match pdu::TcpPdu::new(buffer) {
        Ok(p) => p,
        Err(_) => {
            return None;
        },
    };
    let off: usize = tcp_pdu.computed_data_offset();
    let tcp_payload = Payload::from_slice(vstd::slice::slice_subrange(buffer, off, buffer.len()));
    proof {
        assert(tcp_payload@ =~= buffer@.skip(tcp_data_offset(buffer@)));
    }
    Some(
        PacketManifest {
            ip,
            tcp: TcpLayer {
                src: tcp_pdu.source_port(),
                dst: tcp_pdu.destination_port(),
                ack: tcp_pdu.acknowledgement_number(),
                seq: tcp_pdu.sequence_number(),
                flags: TcpFlags {
                    syn: tcp_pdu.syn(),
                    ack: tcp_pdu.ack(),
                    fin: tcp_pdu.fin(),
                    rst: tcp_pdu.rst(),
                },
            },
            tcp_payload,
        },
    )
}

/// Decodes the payload of an Ethernet frame, by its EtherType, into a TCP
/// manifest.
///
/// A packet parses exactly when pdu accepts both its IP header and the TCP
/// segment behind it; pdu's IPv6 acceptance, which walks the
/// extension-header chain, goes by its name [`ipv6_ok`]. Any other
/// EtherType is not TCP.
pub fn parse_ip<'a>(ty: u16, buffer: &'a [u8]) -> (r: Option<PacketManifest<'a>>)
    ensures
        ty == ETHERTYPE_IPV4 ==> (r is Some <==> (ipv4_ok(buffer@) && tcp_ok(
            buffer@.skip(ipv4_ihl(buffer@)),
        ))),
        ty == ETHERTYPE_IPV4 ==> (r matches Some(m) ==> spec_ipv4_manifest(m, buffer@)),
        ty == ETHERTYPE_IPV6 ==> (r is Some <==> (ipv6_ok(buffer@) && tcp_ok(
            buffer@.skip(ipv6_header_len(buffer@)),
        ))),
        ty == ETHERTYPE_IPV6 ==> (r matches Some(m) ==> spec_ipv6_manifest(m, buffer@)),
        ty == ETHERTYPE_IPV6 && r is Some ==> ipv6_basic_ok(buffer@),
        ty != ETHERTYPE_IPV4 && ty != ETHERTYPE_IPV6 ==> r is None,
{
    if ty == ETHERTYPE_IPV4 {
        let ipv4_pdu = match pdu::Ipv4Pdu::new(buffer) {
            Ok(p) => p,
            Err(_) => {
                return None;
            },
        };
        let src = ipv4_pdu.source_address();
        let dst = ipv4_pdu.destination_address();
        let ip_layer = IpLayer {
            src: IpAddress::V4(u32_from_be_quad(&src)),
            dst: IpAddress::V4(u32_from_be_quad(&dst)),
        };
        proof {
            assert(be32(buffer@.subrange(12, 16), 0) == be32(buffer@, 12));
            assert(be32(buffer@.subrange(16, 20), 0) == be32(buffer@, 16));
        }
        let ihl: usize = ipv4_pdu.computed_ihl();
        let tcp_buffer = vstd::slice::slice_subrange(buffer, ihl, buffer.len());
        proof {
            assert(tcp_buffer@ =~= buffer@.skip(ipv4_ihl(buffer@)));
        }
        parse_tcp(ip_layer, tcp_buffer)
    } else if ty == ETHERTYPE_IPV6 {
        let ipv6_pdu = match pdu::Ipv6Pdu::new(buffer) {
            Ok(p) => p,
            Err(_) => {
                return None;
            },
        };
        let src = ipv6_pdu.source_address();
        let dst = ipv6_pdu.destination_address();
        let ip_layer = IpLayer {
            src: IpAddress::V6(u128_from_be_sixteen(&src)),
            dst: IpAddress::V6(u128_from_be_sixteen(&dst)),
        };
        proof {
            assert(be64(buffer@.subrange(8, 24), 0) == be64(buffer@, 8));
            assert(be64(buffer@.subrange(8, 24), 8) == be64(buffer@, 16));
            assert(be64(buffer@.subrange(24, 40), 0) == be64(buffer@, 24));
            assert(be64(buffer@.subrange(24, 40), 8) == be64(buffer@, 32));
        }
        let ihl: usize = ipv6_pdu.computed_ihl();
        let tcp_buffer = vstd::slice::slice_subrange(buffer, ihl, buffer.len());
        proof {
            assert(tcp_buffer@ =~= buffer@.skip(ipv6_header_len(buffer@)));
        }
        parse_tcp(ip_layer, tcp_buffer)
    } else {
        None
    }
}

/// Decodes an Ethernet frame into a TCP manifest, if it carries one.
///
/// The frame must parse as Ethernet; its payload is then decoded by its
/// EtherType as [`parse_ip`] says.
pub fn parse_ethernet<'a>(ethernet_frame: &'a [u8]) -> (r: Option<PacketManifest<'a>>)
    ensures
        r is Some ==> eth_ok(ethernet_frame@),
        ({
            let s = ethernet_frame@;
            let inner = s.skip(eth_header_len(s));
            &&& (eth_ok(s) && eth_ethertype(s) == ETHERTYPE_IPV4) ==> (r is Some <==> (ipv4_ok(
                inner,
            ) && tcp_ok(inner.skip(ipv4_ihl(inner)))))
            &&& (eth_ok(s) && eth_ethertype(s) == ETHERTYPE_IPV4) ==> (r matches Some(m)
                ==> spec_ipv4_manifest(m, inner))
            &&& (eth_ok(s) && eth_ethertype(s) == ETHERTYPE_IPV6) ==> (r is Some <==> (
            ipv6_ok(inner) && tcp_ok(inner.skip(ipv6_header_len(inner)))))
            &&& (eth_ok(s) && eth_ethertype(s) == ETHERTYPE_IPV6) ==> (r matches Some(m)
                ==> spec_ipv6_manifest(m, inner))
            &&& (eth_ok(s) && eth_ethertype(s) != ETHERTYPE_IPV4 && eth_ethertype(s)
                != ETHERTYPE_IPV6) ==> r is None
        }),
{
    let ethernet_pdu = match pdu::EthernetPdu::new(ethernet_frame) {
        Ok(p) => p,
        Err(_) => {
            return None;
        },
    };
    let ihl: usize = ethernet_pdu.computed_ihl();
    let inner = vstd::slice::slice_subrange(ethernet_frame, ihl, ethernet_frame.len());
    proof {
        assert(inner@ =~= ethernet_frame@.skip(eth_header_len(ethernet_frame@)));
    }
    parse_ip(ethernet_pdu.ethertype(), inner)
}

} // verus!
