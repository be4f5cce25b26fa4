use etherparse::err::packet::BuildWriteError;
use etherparse::PacketBuilder;
use ferrix::packet_builder::{packet_or_refusal, page_packet, syn_ack_packet, BuildError};
use ferrix::protocols::ip::ipv4_address::IPv4Address;
use ferrix::protocols::ip::ipv4_header::IPv4Header;
use ferrix::protocols::tcp::tcp_flags::{TCP_ACK, TCP_PSH, TCP_SYN};
use ferrix::protocols::tcp::tcp_header::TcpHeader;
use ferrix::responder::{respond, Config, LinkMode, PAGE};
use ferrix::protocols::mac_address::MacAddress;
use ferrix::types::bit_stream::Bits;
use ferrix::types::byte_object::ByteObject;

const PEER: [u8; 4] = [10, 0, 0, 9];
const LOCAL: [u8; 4] = [10, 1, 0, 1];

fn tun() -> Config {
    Config {
        mac: MacAddress { address: [2, 0, 0, 0, 0, 1] },
        ip: IPv4Address { address: LOCAL },
        mode: LinkMode::Tun,
    }
}

fn ingress(flags: u8, sequence: u32, acknowledgment: u32, payload: &[u8]) -> Vec<u8> {
    let mut written = Vec::new();
    let mut builder = PacketBuilder::ipv4(PEER, LOCAL, 55).tcp(40000, 80, sequence, 4096);
    if flags & TCP_SYN != 0 {
        builder = builder.syn();
    }
    if flags & TCP_ACK != 0 {
        builder = builder.ack(acknowledgment);
    }
    if flags & TCP_PSH != 0 {
        builder = builder.psh();
    }
    builder.write(&mut written, payload).unwrap();
    written
}

#[test]
fn the_builder_writes_what_the_codec_decodes() {
    let bytes = ingress(TCP_ACK | TCP_PSH, 0xDEAD_BEEF, 0x0102_0304, b"GET / HTTP/1.1\r\n\r\n");
    let block = Bits::from_vec(ferrix::types::bit_utils::BitUtils::u8s_to_bits(&bytes));
    let ipv4 = IPv4Header::read(&block);
    assert_eq!((ipv4.version, ipv4.ihl, ipv4.ttl, ipv4.protocol), (4, 5, 55, 6));
    assert_eq!(ipv4.total_length as usize, bytes.len());
    assert_eq!(ipv4.source_address.address, PEER);
    assert_eq!(ipv4.destination_address.address, LOCAL);
    assert!(ipv4.verify_checksum());
    let tcp = TcpHeader::read(&block.slice(160, block.len()));
    assert_eq!((tcp.source_port, tcp.destination_port), (40000, 80));
    assert_eq!(tcp.sequence_number, 0xDEAD_BEEF);
    assert_eq!(tcp.acknowledgment_number, 0x0102_0304);
    assert_eq!(tcp.flags, TCP_ACK | TCP_PSH);
    assert_eq!((tcp.data_offset, tcp.window_size), (5, 4096));
    assert!(tcp.verify_checksum(&ipv4.source_address, &ipv4.destination_address, &bytes[40..]));
    assert_eq!(ipv4.to_bits().to_u8s(), bytes[..20].to_vec());
    assert_eq!(tcp.to_bits().to_u8s(), bytes[20..40].to_vec());
}

#[test]
fn the_responder_and_the_builder_write_the_same_syn_ack() {
    for sequence in [0u32, 1000, 0xFFFF, 0x1234_5678, u32::MAX] {
        let built = syn_ack_packet(PEER, LOCAL, 40000, 80, sequence).unwrap();
        let sent = respond(&ingress(TCP_SYN, sequence, 0, &[]), &tun()).unwrap().unwrap();
        assert_eq!(built, sent);
    }
}

#[test]
fn the_responder_and_the_builder_write_the_same_page() {
    for (sequence, acknowledgment) in [(0u32, 0u32), (2000, 12346), (u32::MAX, u32::MAX)] {
        let built = page_packet(PEER, LOCAL, 40000, 80, sequence, acknowledgment).unwrap();
        let request = ingress(TCP_ACK | TCP_PSH, sequence, acknowledgment, b"GET / HTTP/1.1\r\n\r\n");
        let sent = respond(&request, &tun()).unwrap().unwrap();
        assert_eq!(built, sent);
        assert_eq!(&built[40..], PAGE.as_bytes());
    }
}

#[test]
fn the_built_syn_ack_is_not_its_arguments() {
    let built = syn_ack_packet(PEER, LOCAL, 40000, 80, 1000).unwrap();
    assert_eq!(built.len(), 40);
    assert_eq!(built[..2], [0x45, 0x00]);
    assert_eq!(built[12..16], LOCAL);
    assert_eq!(built[16..20], PEER);
    assert_eq!(built[20..24], [0, 80, 0x9C, 0x40]);
    assert_eq!(built[24..28], [0, 0, 0x30, 0x39]);
    assert_eq!(built[28..32], [0, 0, 0x03, 0xE9]);
    assert_eq!(built[33], TCP_SYN | TCP_ACK);
}

#[test]
fn a_refusal_of_the_builder_is_reported() {
    assert_eq!(packet_or_refusal(Err(BuildWriteError::Icmpv6InIpv4)), Err(BuildError::Refused));
    assert_eq!(packet_or_refusal(Ok(vec![1, 2, 3])), Ok(vec![1, 2, 3]));
}
