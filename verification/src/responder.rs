//! The stateless responder: it classifies one ingress frame and, where a
//! rule matches, builds the complete reply frame. It keeps no memory from
//! one frame to the next and does no input or output itself.

use vstd::prelude::*;
use crate::error::DecodeError;
use crate::protocols::arp_header::ArpHeader;
use crate::protocols::ether_type::EtherType;
use crate::protocols::ethernet_header::EthernetHeader;
use crate::protocols::ip::ipv4_address::IPv4Address;
use crate::protocols::ip::ipv4_header::IPv4Header;
use crate::protocols::ip::ipv6_header::IPv6Header;
use crate::protocols::mac_address::MacAddress;
use crate::protocols::tcp::tcp_header::TcpHeader;
use crate::protocols::tcp::tcp_flags::{flag_set, has_flag, TCP_ACK, TCP_SYN};
use crate::types::bit_spec::{
    bytes_bits, field, lemma_fields_of_take, lemma_pow2_values, packed_bytes,
};
use vstd::string::StringSliceAdditionalSpecFns;
use crate::types::bit_stream::{BitStream, Bits};
use crate::types::bit_utils::BitUtils;
use crate::types::byte_object::ByteObject;

verus! {

/// The IPv4 protocol number of TCP.
pub const PROTOCOL_TCP: u8 = 6;

/// The IPv4 protocol number of UDP.
pub const PROTOCOL_UDP: u8 = 17;

/// The sequence number that every SYN+ACK starts from.
pub const INITIAL_SEQUENCE: u32 = 12345;

/// The time to live of every reply.
pub const REPLY_TTL: u8 = 64;

/// The destination port that is answered with the fixed page.
pub const HTTP_PORT: u16 = 80;

/// The ARP operation code of a reply.
pub const ARP_REPLY: usize = 2;

/// The text that answers every request to the HTTP port.
pub const PAGE: &'static str =
    "HTTP/1.1 200 OK\r\nContent-Type: text/html\r\nContent-Length: 53\r\nConnection: close\r\n\r\n<html><body><h1>Hello from Ferrix!</h1></body></html>";

/// The flags of a SYN+ACK segment.
pub const SYN_ACK: u8 = 0b0001_0010;

/// The flags of the segment that carries the page and ends the exchange.
pub const ACK_FIN: u8 = 0b0001_0001;

/// The IPv4 flags of every reply: do not fragment.
pub const DONT_FRAGMENT: u8 = 2;

/// Where the frames of a virtual interface start.
#[derive(Clone, Copy, Debug, PartialEq, Eq, Structural)]
pub enum LinkMode {
    /// Frames start with an Ethernet header.
    Tap,
    /// Frames start at the IP layer.
    Tun,
}

/// The local identity and the framing of the interface. The responder takes
/// it as an argument; nothing is read from the surroundings.
#[derive(Clone, Copy, Debug, PartialEq, Eq)]
pub struct Config {
    pub mac: MacAddress,
    pub ip: IPv4Address,
    pub mode: LinkMode,
}

/// A decoded ingress frame, as far as the responder can answer it.
#[derive(Clone, Copy, Debug, PartialEq, Eq)]
pub enum Frame {
    /// An ARP packet in an Ethernet frame.
    Arp { ethernet: EthernetHeader, arp: ArpHeader },
    /// A TCP segment over IPv4, with the number of bytes that follow the
    /// TCP header. The Ethernet header is there in tap mode only.
    Tcp { link: Option<EthernetHeader>, ipv4: IPv4Header, tcp: TcpHeader, payload_len: usize },
}

/// What a run of bits that starts with an IPv4 header decodes to. Only TCP
/// is carried on; UDP is known but not implemented, and any other protocol
/// number is refused.
pub open spec fn ipv4_frame(bits: Seq<bool>, link: Option<EthernetHeader>) -> Result<
    Frame,
    DecodeError,
> {
    match IPv4Header::decoding(bits) {
        Err(e) => Err(e),
        Ok(ipv4) => {
            let rest = bits.skip(IPv4Header::decoded_len(bits) as int);
            if ipv4.protocol == PROTOCOL_TCP {
                match TcpHeader::decoding(rest) {
                    Err(e) => Err(e),
                    Ok(tcp) => Ok(
                        Frame::Tcp {
                            link,
                            ipv4,
                            tcp,
                            payload_len: ((rest.len() - 160) / 8) as usize,
                        },
                    ),
                }
            } else if ipv4.protocol == PROTOCOL_UDP {
                Err(DecodeError::UnsupportedProtocol)
            } else {
                Err(DecodeError::UnrecognizedTag)
            }
        },
    }
}

/// What a run of bits that starts with an IPv6 header decodes to: never a
/// frame. TCP and UDP over IPv6 are known but not implemented, and any
/// other next header is refused.
pub open spec fn ipv6_frame(bits: Seq<bool>) -> Result<Frame, DecodeError> {
    match IPv6Header::decoding(bits) {
        Err(e) => Err(e),
        Ok(ipv6) => if ipv6.next_header == PROTOCOL_TCP || ipv6.next_header == PROTOCOL_UDP {
            Err(DecodeError::UnsupportedProtocol)
        } else {
            Err(DecodeError::UnrecognizedTag)
        },
    }
}

/// What the bits of a whole frame decode to. In tap mode the ethertype
/// picks the next header; in tun mode the version nibble does.
pub open spec fn frame_of(bits: Seq<bool>, mode: LinkMode) -> Result<Frame, DecodeError> {
    match mode {
        LinkMode::Tap => match EthernetHeader::decoding(bits) {
            Err(e) => Err(e),
            Ok(ethernet) => match ethernet.ether_type {
                EtherType::ARP => match ArpHeader::decoding(bits.skip(112)) {
                    Err(e) => Err(e),
                    Ok(arp) => Ok(Frame::Arp { ethernet, arp }),
                },
                EtherType::IPv4 => ipv4_frame(bits.skip(112), Some(ethernet)),
                EtherType::IPv6 => ipv6_frame(bits.skip(112)),
            },
        },
        LinkMode::Tun => if bits.len() < 4 {
            Err(DecodeError::BufferUnderrun)
        } else if field(bits, 0, 4) == 4 {
            ipv4_frame(bits, None)
        } else if field(bits, 0, 4) == 6 {
            ipv6_frame(bits)
        } else {
            Err(DecodeError::UnrecognizedTag)
        },
    }
}

/// Decodes what starts with an IPv4 header at the cursor.
pub fn decode_ipv4(stream: &mut BitStream, link: Option<EthernetHeader>) -> (frame: Result<
    Frame,
    DecodeError,
>)
    requires
        old(stream).wf(),
    ensures
        final(stream).wf(),
        frame == ipv4_frame(old(stream).unread(), link),
{
    let ipv4 = IPv4Header::from_stream(stream)?;
    let ghost start = old(stream).unread();
    let ghost rest = start.skip(IPv4Header::decoded_len(start) as int);
    proof {
        IPv4Header::lemma_decoding_valid(start);
        stream.lemma_advanced(old(stream), IPv4Header::decoded_len(start));
    }
    if ipv4.protocol == PROTOCOL_TCP {
        let ghost middle = *stream;
        let tcp = TcpHeader::from_stream(stream)?;
        let payload_len = stream.remaining() / 8;
        proof {
            stream.lemma_advanced(&middle, 160);
        }
        Ok(Frame::Tcp { link, ipv4, tcp, payload_len })
    } else if ipv4.protocol == PROTOCOL_UDP {
        Err(DecodeError::UnsupportedProtocol)
    } else {
        Err(DecodeError::UnrecognizedTag)
    }
}

/// Decodes what starts with an IPv6 header at the cursor: always a fault,
/// as no protocol over IPv6 is implemented.
pub fn decode_ipv6(stream: &mut BitStream) -> (frame: Result<Frame, DecodeError>)
    requires
        old(stream).wf(),
    ensures
        final(stream).wf(),
        frame == ipv6_frame(old(stream).unread()),
{
    let ipv6 = IPv6Header::from_stream(stream)?;
    if ipv6.next_header == PROTOCOL_TCP || ipv6.next_header == PROTOCOL_UDP {
        Err(DecodeError::UnsupportedProtocol)
    } else {
        Err(DecodeError::UnrecognizedTag)
    }
}

/// Decodes one whole ingress frame.
pub fn decode_frame(bytes: &[u8], mode: LinkMode) -> (frame: Result<Frame, DecodeError>)
    ensures
        frame == frame_of(bytes_bits(bytes@), mode),
{
    let mut stream = BitStream::new(Bits::from_vec(BitUtils::u8s_to_bits(bytes)));
    assert(stream.unread() =~= bytes_bits(bytes@));
    match mode {
        LinkMode::Tap => {
            let ghost start = stream;
            let ethernet = EthernetHeader::from_stream(&mut stream)?;
            proof {
                stream.lemma_advanced(&start, 112);
            }
            match ethernet.ether_type {
                EtherType::ARP => {
                    let arp = ArpHeader::from_stream(&mut stream)?;
                    Ok(Frame::Arp { ethernet, arp })
                },
                EtherType::IPv4 => decode_ipv4(&mut stream, Some(ethernet)),
                EtherType::IPv6 => decode_ipv6(&mut stream),
            }
        },
        LinkMode::Tun => {
            let nibble = stream.view(4)?;
            proof {
                stream.lemma_wf();
                lemma_fields_of_take(stream.unread(), 4);
                lemma_pow2_values();
            }
            let version = nibble.uint_at(0, 4);
            if version == 4 {
                decode_ipv4(&mut stream, None)
            } else if version == 6 {
                decode_ipv6(&mut stream)
            } else {
                Err(DecodeError::UnrecognizedTag)
            }
        },
    }
}

/// What follows the headers of a TCP reply.
#[derive(Clone, Copy, Debug, PartialEq, Eq, Structural)]
pub enum Body {
    /// Nothing: the segment only carries flags.
    Empty,
    /// The fixed page.
    Page,
}

impl Body {
    /// The bytes of the body.
    pub open spec fn bytes(&self) -> Seq<u8> {
        match self {
            Body::Empty => Seq::empty(),
            Body::Page => PAGE.spec_bytes(),
        }
    }

    /// The body is 136 bytes long where it is the page.
    pub proof fn lemma_len(&self)
        ensures
            self.bytes().len() == (if *self == Body::Page {
                136nat
            } else {
                0nat
            }),
    {
        reveal_strlit(
            "HTTP/1.1 200 OK\r\nContent-Type: text/html\r\nContent-Length: 53\r\nConnection: close\r\n\r\n<html><body><h1>Hello from Ferrix!</h1></body></html>",
        );
        vstd::utf8::is_ascii_chars_encode_utf8(PAGE@);
    }

    /// The bytes of the body.
    pub fn as_bytes(&self) -> (bytes: &'static [u8])
        ensures
            bytes@ == self.bytes(),
    {
        match self {
            Body::Empty => {
                let empty: &'static [u8] = &[];
                assert(empty@ =~= Seq::<u8>::empty());
                empty
            },
            Body::Page => PAGE.as_bytes(),
        }
    }
}

/// A complete reply, header by header.
#[derive(Clone, Copy, Debug, PartialEq, Eq)]
pub enum Reply {
    /// An ARP reply in an Ethernet frame.
    Arp { ethernet: EthernetHeader, arp: ArpHeader },
    /// A TCP segment over IPv4; the Ethernet header is there in tap mode
    /// only.
    Tcp { link: Option<EthernetHeader>, ipv4: IPv4Header, tcp: TcpHeader, body: Body },
}

/// The sequence number after `sequence`, counted modulo two to the power 32.
pub open spec fn next_sequence(sequence: u32) -> u32 {
    ((sequence + 1) % 0x1_0000_0000) as u32
}

/// The Ethernet header that brings a reply back to the sender of `link`.
pub open spec fn link_back(link: Option<EthernetHeader>, config: Config) -> Option<
    EthernetHeader,
> {
    match link {
        Some(ethernet) => Some(
            EthernetHeader {
                destination: ethernet.source,
                source: config.mac,
                ether_type: EtherType::IPv4,
            },
        ),
        None => None,
    }
}

/// The reply to an ARP packet: operation 2, the local identity as sender,
/// the sender of the request as target, sent back to where the request came
/// from.
pub open spec fn arp_reply(ethernet: EthernetHeader, arp: ArpHeader, config: Config) -> Reply {
    Reply::Arp {
        ethernet: EthernetHeader {
            destination: ethernet.source,
            source: config.mac,
            ether_type: EtherType::ARP,
        },
        arp: ArpHeader {
            oper: ARP_REPLY,
            sha: config.mac,
            spa: config.ip,
            tha: arp.sha,
            tpa: arp.spa,
            ..arp
        },
    }
}

/// The TCP header of a reply to `tcp`, before its checksum is computed:
/// ports swapped, the acknowledgment one past the incoming sequence number,
/// and the low sixteen bits of the acknowledgment as window.
pub open spec fn reply_segment(tcp: TcpHeader, flags: u8, sequence: u32) -> TcpHeader {
    TcpHeader {
        source_port: tcp.destination_port,
        destination_port: tcp.source_port,
        sequence_number: sequence,
        acknowledgment_number: next_sequence(tcp.sequence_number),
        data_offset: 5,
        reserved: 0,
        flags,
        window_size: (next_sequence(tcp.sequence_number) % 0x10000) as u16,
        checksum: 0,
        urgent_pointer: 0,
    }
}

/// The IPv4 header of a reply to `ipv4`, before its checksum is computed:
/// addresses swapped, the total length that of both headers and `body_len`
/// bytes.
pub open spec fn reply_packet(ipv4: IPv4Header, body_len: nat) -> IPv4Header {
    IPv4Header {
        version: 4,
        ihl: 5,
        dscp: 0,
        ecn: 0,
        total_length: (40 + body_len) as u16,
        identification: 0,
        flags: DONT_FRAGMENT,
        fragment_offset: 0,
        ttl: REPLY_TTL,
        protocol: PROTOCOL_TCP,
        header_checksum: 0,
        source_address: ipv4.destination_address,
        destination_address: ipv4.source_address,
    }
}

/// The reply to a TCP segment, with both checksums in place.
pub open spec fn tcp_reply(
    link: Option<EthernetHeader>,
    ipv4: IPv4Header,
    tcp: TcpHeader,
    config: Config,
    flags: u8,
    sequence: u32,
    body: Body,
) -> Reply {
    let packet = reply_packet(ipv4, body.bytes().len());
    let segment = reply_segment(tcp, flags, sequence);
    Reply::Tcp {
        link: link_back(link, config),
        ipv4: packet.with_checksum(packet.expected_checksum()),
        tcp: segment.with_checksum(
            segment.expected_checksum(
                packet.source_address,
                packet.destination_address,
                body.bytes(),
            ),
        ),
        body,
    }
}

/// The rules of the responder, in order; the first that matches decides.
/// An ARP packet is answered. A TCP segment with SYN set and ACK clear is
/// answered with SYN+ACK. A TCP segment to the HTTP port that carries at
/// least one byte behind its header is answered with the page and FIN. Any
/// other frame gets no reply.
pub open spec fn reply_for(frame: Frame, config: Config) -> Option<Reply> {
    match frame {
        Frame::Arp { ethernet, arp } => Some(arp_reply(ethernet, arp, config)),
        Frame::Tcp { link, ipv4, tcp, payload_len } => if flag_set(tcp.flags, TCP_SYN) && !flag_set(
            tcp.flags,
            TCP_ACK,
        ) {
            Some(tcp_reply(link, ipv4, tcp, config, SYN_ACK, INITIAL_SEQUENCE, Body::Empty))
        } else if tcp.destination_port == HTTP_PORT && payload_len > 0 {
            Some(tcp_reply(link, ipv4, tcp, config, ACK_FIN, tcp.acknowledgment_number, Body::Page))
        } else {
            None
        },
    }
}

impl Reply {
    /// The bytes of the reply frame: the headers in their wire layout, then
    /// the body.
    pub open spec fn wire(&self) -> Seq<u8> {
        match self {
            Reply::Arp { ethernet, arp } => packed_bytes(ethernet.encoding() + arp.encoding()),
            Reply::Tcp { link, ipv4, tcp, body } => packed_bytes(
                (match link {
                    Some(ethernet) => ethernet.encoding(),
                    None => Seq::empty(),
                }) + ipv4.encoding() + tcp.encoding(),
            ) + body.bytes(),
        }
    }

    /// The bytes of the reply frame.
    pub fn to_bytes(&self) -> (bytes: Vec<u8>)
        ensures
            bytes@ == self.wire(),
    {
        let mut bits = Bits::new();
        match self {
            Reply::Arp { ethernet, arp } => {
                bits.append(&ethernet.to_bits());
                bits.append(&arp.to_bits());
                assert(bits@ =~= ethernet.encoding() + arp.encoding());
                bits.to_u8s()
            },
            Reply::Tcp { link, ipv4, tcp, body } => {
                match link {
                    Some(ethernet) => {
                        bits.append(&ethernet.to_bits());
                    },
                    None => {},
                }
                bits.append(&ipv4.to_bits());
                bits.append(&tcp.to_bits());
                assert(bits@ =~= (match link {
                    Some(ethernet) => ethernet.encoding(),
                    None => Seq::empty(),
                }) + ipv4.encoding() + tcp.encoding());
                let mut bytes = bits.to_u8s();
                let ghost headers = bytes@;
                bytes.extend_from_slice(body.as_bytes());
                assert(bytes@ =~= headers + body.bytes());
                bytes
            },
        }
    }
}

/// The sequence number after `sequence`, counted modulo two to the power 32.
pub fn sequence_after(sequence: u32) -> (next: u32)
    ensures
        next == next_sequence(sequence),
{
    if sequence == u32::MAX {
        0
    } else {
        sequence + 1
    }
}

/// Builds the reply to a TCP segment and computes both checksums.
pub fn build_tcp_reply(
    link: Option<EthernetHeader>,
    ipv4: &IPv4Header,
    tcp: &TcpHeader,
    config: &Config,
    flags: u8,
    sequence: u32,
    body: Body,
) -> (reply: Reply)
    ensures
        reply == tcp_reply(link, *ipv4, *tcp, *config, flags, sequence, body),
{
    proof {
        body.lemma_len();
    }
    let payload = body.as_bytes();
    let acknowledgment = sequence_after(tcp.sequence_number);
    let mut segment = TcpHeader {
        source_port: tcp.destination_port,
        destination_port: tcp.source_port,
        sequence_number: sequence,
        acknowledgment_number: acknowledgment,
        data_offset: 5,
        reserved: 0,
        flags,
        window_size: (acknowledgment % 0x10000) as u16,
        checksum: 0,
        urgent_pointer: 0,
    };
    let mut packet = IPv4Header {
        version: 4,
        ihl: 5,
        dscp: 0,
        ecn: 0,
        total_length: (40 + payload.len()) as u16,
        identification: 0,
        flags: DONT_FRAGMENT,
        fragment_offset: 0,
        ttl: REPLY_TTL,
        protocol: PROTOCOL_TCP,
        header_checksum: 0,
        source_address: ipv4.destination_address,
        destination_address: ipv4.source_address,
    };
    segment.update_checksum(&packet.source_address, &packet.destination_address, payload);
    packet.update_checksum();
    let link = match link {
        Some(ethernet) => Some(
            EthernetHeader {
                destination: ethernet.source,
                source: config.mac,
                ether_type: EtherType::IPv4,
            },
        ),
        None => None,
    };
    Reply::Tcp { link, ipv4: packet, tcp: segment, body }
}

/// Applies the rules of the responder to one decoded frame.
pub fn decide(frame: &Frame, config: &Config) -> (reply: Option<Reply>)
    ensures
        reply == reply_for(*frame, *config),
{
    match frame {
        Frame::Arp { ethernet, arp } => {
            let link = EthernetHeader {
                destination: ethernet.source,
                source: config.mac,
                ether_type: EtherType::ARP,
            };
            let answer = ArpHeader {
                htype: arp.htype,
                ptype: arp.ptype,
                hlen: arp.hlen,
                plen: arp.plen,
                oper: ARP_REPLY,
                sha: config.mac,
                spa: config.ip,
                tha: arp.sha,
                tpa: arp.spa,
            };
            Some(Reply::Arp { ethernet: link, arp: answer })
        },
        Frame::Tcp { link, ipv4, tcp, payload_len } => {
            if has_flag(tcp.flags, TCP_SYN) && !has_flag(tcp.flags, TCP_ACK) {
                Some(
                    build_tcp_reply(*link, ipv4, tcp, config, SYN_ACK, INITIAL_SEQUENCE, Body::Empty),
                )
            } else if tcp.destination_port == HTTP_PORT && *payload_len > 0 {
                Some(
                    build_tcp_reply(
                        *link,
                        ipv4,
                        tcp,
                        config,
                        ACK_FIN,
                        tcp.acknowledgment_number,
                        Body::Page,
                    ),
                )
            } else {
                None
            }
        },
    }
}

/// Every ARP packet is answered with exactly this reply: operation 2, the
/// local identity as sender, the sender of the request as target, in an
/// Ethernet frame from the local address to the source of the request.
pub proof fn lemma_arp_is_answered(ethernet: EthernetHeader, arp: ArpHeader, config: Config)
    ensures
        reply_for(Frame::Arp { ethernet, arp }, config) matches Some(
            Reply::Arp { ethernet: link, arp: answer },
        ) && answer.oper == 2 && answer.sha == config.mac && answer.spa == config.ip && answer.tha
            == arp.sha && answer.tpa == arp.spa && link.destination == ethernet.source
            && link.source == config.mac && link.ether_type == EtherType::ARP,
{
}

/// Every TCP segment with SYN set and ACK clear is answered with a segment
/// that acknowledges the sequence number after the incoming one and has
/// both SYN and ACK set; its checksums are the ones that belong in it.
#[verifier::rlimit(40)]
pub proof fn lemma_syn_is_answered(
    link: Option<EthernetHeader>,
    ipv4: IPv4Header,
    tcp: TcpHeader,
    payload_len: usize,
    config: Config,
)
    requires
        flag_set(tcp.flags, TCP_SYN),
        !flag_set(tcp.flags, TCP_ACK),
    ensures
        reply_for(Frame::Tcp { link, ipv4, tcp, payload_len }, config) matches Some(
            Reply::Tcp { ipv4: packet, tcp: segment, body, .. },
        ) && segment.acknowledgment_number == next_sequence(tcp.sequence_number) && flag_set(
            segment.flags,
            TCP_SYN,
        ) && flag_set(segment.flags, TCP_ACK) && segment.source_port == tcp.destination_port
            && segment.destination_port == tcp.source_port && packet.source_address
            == ipv4.destination_address && packet.destination_address == ipv4.source_address
            && packet.total_length == 40 && body == Body::Empty && packet.checksum_valid()
            && segment.checksum_valid(packet.source_address, packet.destination_address, body.bytes()),
{
    Body::Empty.lemma_len();
}

/// An IPv4 packet that carries UDP is never answered: it is reported as an
/// unsupported protocol, in either framing.
#[verifier::rlimit(40)]
pub proof fn lemma_udp_is_unsupported(bits: Seq<bool>, mode: LinkMode)
    requires
        match mode {
            LinkMode::Tap => EthernetHeader::decoding(bits) matches Ok(ethernet)
                && ethernet.ether_type == EtherType::IPv4 && (IPv4Header::decoding(
                bits.skip(112),
            ) matches Ok(ipv4) && ipv4.protocol == PROTOCOL_UDP),
            LinkMode::Tun => IPv4Header::decoding(bits) matches Ok(ipv4) && ipv4.version == 4
                && ipv4.protocol == PROTOCOL_UDP,
        },
    ensures
        frame_of(bits, mode) == Err::<Frame, DecodeError>(DecodeError::UnsupportedProtocol),
{
    if mode == LinkMode::Tun {
        crate::types::bit_spec::lemma_bits_value_bound(bits.subrange(0, 4));
        lemma_pow2_values();
    }
}

/// A frame that is too short for the headers it announces is a buffer
/// underrun. In tap mode that is any frame shorter than an Ethernet and an
/// IPv4 header whose ethertype, if it is there at all, is a known one; in
/// tun mode any packet shorter than an IPv4 header whose version nibble, if
/// it is there at all, is 4 or 6.
#[verifier::rlimit(40)]
pub proof fn lemma_truncated_is_underrun(bits: Seq<bool>, mode: LinkMode)
    requires
        match mode {
            LinkMode::Tap => bits.len() < 272 && (bits.len() < 112 || EtherType::of_code(
                field(bits, 96, 16),
            ) is Some),
            LinkMode::Tun => bits.len() < 160 && (bits.len() < 4 || field(bits, 0, 4) == 4
                || field(bits, 0, 4) == 6),
        },
    ensures
        frame_of(bits, mode) == Err::<Frame, DecodeError>(DecodeError::BufferUnderrun),
{
}

impl Reply {
    /// The reply as the frame that its receiver decodes.
    pub open spec fn as_frame(&self) -> Frame {
        match self {
            Reply::Arp { ethernet, arp } => Frame::Arp { ethernet: *ethernet, arp: *arp },
            Reply::Tcp { link, ipv4, tcp, body } => Frame::Tcp {
                link: *link,
                ipv4: *ipv4,
                tcp: *tcp,
                payload_len: body.bytes().len() as usize,
            },
        }
    }

    /// The bits of the reply frame are the encodings of its headers, one
    /// after the other, and the bits of its body.
    #[verifier::rlimit(40)]
    pub proof fn lemma_wire_bits(&self)
        ensures
            bytes_bits(self.wire()) == match self {
                Reply::Arp { ethernet, arp } => ethernet.encoding() + arp.encoding(),
                Reply::Tcp { link, ipv4, tcp, body } => (match link {
                    Some(ethernet) => ethernet.encoding(),
                    None => Seq::empty(),
                }) + ipv4.encoding() + tcp.encoding() + bytes_bits(body.bytes()),
            },
    {
        match self {
            Reply::Arp { ethernet, arp } => {
                ethernet.lemma_fields(Seq::empty());
                arp.lemma_fields(Seq::empty());
                crate::types::bit_spec::lemma_bits_of_packed_bytes(
                    ethernet.encoding() + arp.encoding(),
                );
            },
            Reply::Tcp { link, ipv4, tcp, body } => {
                let first = match link {
                    Some(ethernet) => ethernet.encoding(),
                    None => Seq::empty(),
                };
                if let Some(ethernet) = link {
                    ethernet.lemma_fields(Seq::empty());
                }
                ipv4.lemma_fields(Seq::empty());
                tcp.lemma_fields(Seq::empty());
                let headers = first + ipv4.encoding() + tcp.encoding();
                crate::types::bit_spec::lemma_bits_of_packed_bytes(headers);
                crate::types::bit_spec::lemma_bytes_bits_concat(
                    packed_bytes(headers),
                    body.bytes(),
                );
            },
        }
    }
}

/// A valid IPv4 header without options that announces TCP, a valid TCP
/// header and whole bytes behind them decode to just these.
#[verifier::rlimit(40)]
pub proof fn lemma_segment_decodes(
    link: Option<EthernetHeader>,
    ipv4: IPv4Header,
    tcp: TcpHeader,
    payload: Seq<u8>,
)
    requires
        ipv4.valid(),
        ipv4.ihl == 5,
        ipv4.protocol == PROTOCOL_TCP,
        tcp.valid(),
        payload.len() <= usize::MAX,
    ensures
        ipv4_frame(ipv4.encoding() + tcp.encoding() + bytes_bits(payload), link) == Ok::<
            Frame,
            DecodeError,
        >(Frame::Tcp { link, ipv4, tcp, payload_len: payload.len() as usize }),
{
    let tail = bytes_bits(payload);
    let all = ipv4.encoding() + tcp.encoding() + tail;
    crate::types::bit_spec::lemma_bytes_bits_len(payload);
    ipv4.lemma_fields(tcp.encoding() + tail);
    tcp.lemma_fields(tail);
    ipv4.lemma_round_trip(tcp.encoding() + tail);
    tcp.lemma_round_trip(tail);
    assert(all =~= ipv4.encoding() + (tcp.encoding() + tail));
    assert(all.skip(160) =~= tcp.encoding() + tail);
}

/// In tap mode, what follows an Ethernet header that announces IPv4 is
/// decoded as an IPv4 packet.
#[verifier::rlimit(40)]
pub proof fn lemma_framed_packet(ethernet: EthernetHeader, packet: Seq<bool>)
    requires
        ethernet.ether_type == EtherType::IPv4,
    ensures
        frame_of(ethernet.encoding() + packet, LinkMode::Tap) == ipv4_frame(
            packet,
            Some(ethernet),
        ),
{
    ethernet.lemma_round_trip(packet);
    ethernet.lemma_fields(packet);
    assert((ethernet.encoding() + packet).skip(112) =~= packet);
}

/// In tun mode, what starts with the encoding of an IPv4 header of version
/// 4 is decoded as an IPv4 packet.
#[verifier::rlimit(40)]
pub proof fn lemma_bare_packet(ipv4: IPv4Header, rest: Seq<bool>)
    requires
        ipv4.version == 4,
    ensures
        frame_of(ipv4.encoding() + rest, LinkMode::Tun) == ipv4_frame(
            ipv4.encoding() + rest,
            None,
        ),
{
    let all = ipv4.encoding() + rest;
    ipv4.lemma_fields(rest);
    crate::types::bit_spec::lemma_bits_value_bound(all.subrange(0, 4));
    lemma_pow2_values();
}

/// Four runs of bits set end to end, grouped from the left or behind the
/// first.
pub proof fn lemma_regroup(a: Seq<bool>, b: Seq<bool>, c: Seq<bool>, d: Seq<bool>)
    ensures
        a + b + c + d == a + (b + c + d),
        b + c + d == b + (c + d),
        Seq::<bool>::empty() + b + c + d == b + c + d,
{
    assert(a + b + c + d =~= a + (b + c + d));
    assert(b + c + d =~= b + (c + d));
    assert(Seq::<bool>::empty() + b + c + d =~= b + c + d);
}

/// The frame of a TCP reply decodes to the headers and the body length of
/// the reply, with the framing it was built for.
#[verifier::rlimit(50)]
pub proof fn lemma_tcp_reply_decodes(reply: Reply, mode: LinkMode)
    requires
        reply matches Reply::Tcp { link, ipv4, tcp, body } && ipv4.valid() && ipv4.ihl == 5
            && ipv4.version == 4 && ipv4.protocol == PROTOCOL_TCP && tcp.valid() && (match link {
            Some(ethernet) => mode == LinkMode::Tap && ethernet.ether_type == EtherType::IPv4,
            None => mode == LinkMode::Tun,
        }),
    ensures
        frame_of(bytes_bits(reply.wire()), mode) == Ok::<Frame, DecodeError>(reply.as_frame()),
{
    reply.lemma_wire_bits();
    match reply {
        Reply::Tcp { link, ipv4, tcp, body } => {
            body.lemma_len();
            let tail = bytes_bits(body.bytes());
            lemma_segment_decodes(link, ipv4, tcp, body.bytes());
            match link {
                Some(ethernet) => {
                    lemma_regroup(ethernet.encoding(), ipv4.encoding(), tcp.encoding(), tail);
                    lemma_framed_packet(ethernet, ipv4.encoding() + tcp.encoding() + tail);
                },
                None => {
                    lemma_regroup(Seq::empty(), ipv4.encoding(), tcp.encoding(), tail);
                    lemma_bare_packet(ipv4, tcp.encoding() + tail);
                },
            }
        },
        Reply::Arp { .. } => {},
    }
}

/// The frame of an ARP reply decodes to the headers of the reply.
#[verifier::rlimit(40)]
pub proof fn lemma_arp_reply_decodes(reply: Reply)
    requires
        reply matches Reply::Arp { ethernet, arp } && ethernet.ether_type == EtherType::ARP
            && arp.valid(),
    ensures
        frame_of(bytes_bits(reply.wire()), LinkMode::Tap) == Ok::<Frame, DecodeError>(
            reply.as_frame(),
        ),
{
    let sent = bytes_bits(reply.wire());
    reply.lemma_wire_bits();
    match reply {
        Reply::Arp { ethernet, arp } => {
            ethernet.lemma_round_trip(arp.encoding());
            ethernet.lemma_fields(arp.encoding());
            arp.lemma_round_trip(Seq::empty());
            assert(sent.skip(112) =~= arp.encoding() + Seq::<bool>::empty());
        },
        Reply::Tcp { .. } => {},
    }
}

/// What decoding gives keeps to the framing: an ARP packet comes in tap
/// mode only and is valid; a TCP segment has an Ethernet header in tap mode
/// and none in tun mode.
#[verifier::rlimit(40)]
pub proof fn lemma_frame_framing(bits: Seq<bool>, mode: LinkMode)
    requires
        frame_of(bits, mode) is Ok,
    ensures
        match frame_of(bits, mode)->Ok_0 {
            Frame::Arp { ethernet, arp } => mode == LinkMode::Tap && arp.valid(),
            Frame::Tcp { link, .. } => (link is Some) == (mode == LinkMode::Tap),
        },
{
    if mode == LinkMode::Tap {
        ArpHeader::lemma_decoding_valid(bits.skip(112));
    }
}

/// What the responder sends can be read back: the reply to a decoded frame,
/// taken as a frame of the same interface, decodes to the headers that the
/// responder built and to the length of the body it attached.
#[verifier::rlimit(40)]
pub proof fn lemma_reply_decodes(bits: Seq<bool>, config: Config)
    requires
        frame_of(bits, config.mode) is Ok,
        reply_for(frame_of(bits, config.mode)->Ok_0, config) is Some,
    ensures
        frame_of(
            bytes_bits(reply_for(frame_of(bits, config.mode)->Ok_0, config)->Some_0.wire()),
            config.mode,
        ) == Ok::<Frame, DecodeError>(
            reply_for(frame_of(bits, config.mode)->Ok_0, config)->Some_0.as_frame(),
        ),
{
    let frame = frame_of(bits, config.mode)->Ok_0;
    let reply = reply_for(frame, config)->Some_0;
    lemma_frame_framing(bits, config.mode);
    match reply {
        Reply::Arp { .. } => {
            lemma_arp_reply_decodes(reply);
        },
        Reply::Tcp { body, .. } => {
            body.lemma_len();
            lemma_tcp_reply_decodes(reply, config.mode);
        },
    }
}

/// What the responder sends back for the bytes of one ingress frame: a
/// fault where the frame cannot be decoded, nothing where no rule matches,
/// else the bytes of the reply.
pub open spec fn response_to(bytes: Seq<u8>, config: Config) -> Result<Option<Seq<u8>>, DecodeError> {
    match frame_of(bytes_bits(bytes), config.mode) {
        Err(e) => Err(e),
        Ok(frame) => Ok(
            match reply_for(frame, config) {
                Some(reply) => Some(reply.wire()),
                None => None,
            },
        ),
    }
}

/// Answers one ingress frame: decodes it, applies the rules, and encodes
/// the reply where there is one.
pub fn respond(bytes: &[u8], config: &Config) -> (out: Result<Option<Vec<u8>>, DecodeError>)
    ensures
        match response_to(bytes@, *config) {
            Err(e) => out == Err::<Option<Vec<u8>>, DecodeError>(e),
            Ok(None) => out == Ok::<Option<Vec<u8>>, DecodeError>(None),
            Ok(Some(wire)) => out matches Ok(Some(sent)) && sent@ == wire,
        },
{
    let frame = decode_frame(bytes, config.mode)?;
    match decide(&frame, config) {
        Some(reply) => Ok(Some(reply.to_bytes())),
        None => Ok(None),
    }
}

} // verus!
