use ferrix::decoder::{Decoder, FrameDecoder, HeaderDecoder};
use ferrix::error::DecodeError;
use ferrix::protocols::arp_header::{bytes_to_int, ArpHeader};
use ferrix::protocols::ether_type::EtherType;
use ferrix::protocols::ethernet_header::EthernetHeader;
use ferrix::protocols::header::{Header, HeaderKind};
use ferrix::protocols::ip::ipv4_address::IPv4Address;
use ferrix::protocols::ip::ipv4_header::IPv4Header;
use ferrix::protocols::ip::ipv6_address::IPv6Address;
use ferrix::protocols::ip::ipv6_header::IPv6Header;
use ferrix::protocols::mac_address::MacAddress;
use ferrix::protocols::tcp::tcp_flags::{
    has_flag, TCP_ACK, TCP_CWR, TCP_ECE, TCP_FIN, TCP_PSH, TCP_RST, TCP_SYN, TCP_URG,
};
use ferrix::protocols::tcp::tcp_header::TcpHeader;
use ferrix::responder::LinkMode;
use ferrix::types::bit_stream::{BitStream, Bits, BitsCompatible};
use ferrix::types::byte_object::ByteObject;

fn stream_of(bytes: &[u8]) -> BitStream {
    BitStream::new(bytes.to_vec().to_bits())
}

fn ipv4_header(fill: u8, ihl: u8) -> IPv4Header {
    let wide = if fill == 0 { 0 } else { 0xFFFF };
    IPv4Header {
        version: fill & 0xF,
        ihl,
        dscp: fill & 0x3F,
        ecn: fill & 0x3,
        total_length: wide,
        identification: wide,
        flags: fill & 0x7,
        fragment_offset: wide & 0x1FFF,
        ttl: fill,
        protocol: fill,
        header_checksum: wide,
        source_address: IPv4Address { address: [fill; 4] },
        destination_address: IPv4Address { address: [fill; 4] },
    }
}

fn tcp_header(fill: u8, data_offset: u8) -> TcpHeader {
    let wide = if fill == 0 { 0 } else { 0xFFFF };
    let wider = if fill == 0 { 0 } else { 0xFFFF_FFFF };
    TcpHeader {
        source_port: wide,
        destination_port: wide,
        sequence_number: wider,
        acknowledgment_number: wider,
        data_offset,
        reserved: fill & 0xF,
        flags: fill,
        window_size: wide,
        checksum: wide,
        urgent_pointer: wide,
    }
}

#[test]
fn mac_address_round_trip() {
    for address in [[0u8; 6], [0xFF; 6], [0xAA, 0xBB, 0xCC, 0xDD, 0xEE, 0xFF]] {
        let mac = MacAddress { address };
        let bits = mac.to_bits();
        assert_eq!(bits.len(), 48);
        assert_eq!(bits.to_u8s(), address.to_vec());
        let mut stream = BitStream::new(bits);
        assert_eq!(MacAddress::from_stream(&mut stream), Ok(mac));
        assert_eq!(stream.remaining(), 0);
    }
}

#[test]
fn ipv4_address_round_trip() {
    for address in [[0u8; 4], [0xFF; 4], [192, 168, 1, 5]] {
        let ip = IPv4Address { address };
        let bits = ip.to_bits();
        assert_eq!(bits.to_u8s(), address.to_vec());
        let mut stream = BitStream::new(bits);
        assert_eq!(IPv4Address::from_stream(&mut stream), Ok(ip));
        assert_eq!(stream.remaining(), 0);
    }
}

#[test]
fn ipv6_address_round_trip() {
    let mut address = [0u8; 16];
    for (i, byte) in address.iter_mut().enumerate() {
        *byte = 0xF0 + i as u8;
    }
    for address in [[0u8; 16], [0xFF; 16], address] {
        let ip = IPv6Address { address };
        let bits = ip.to_bits();
        assert_eq!(bits.to_u8s(), address.to_vec());
        let mut stream = BitStream::new(bits);
        assert_eq!(IPv6Address::from_stream(&mut stream), Ok(ip));
        assert_eq!(stream.remaining(), 0);
    }
}

#[test]
fn addresses_need_all_their_bytes() {
    let mut stream = stream_of(&[1, 2, 3, 4, 5]);
    assert_eq!(MacAddress::from_stream(&mut stream), Err(DecodeError::BufferUnderrun));
    assert_eq!(stream.remaining(), 40);
    assert_eq!(
        IPv6Address::from_stream(&mut stream),
        Err(DecodeError::BufferUnderrun)
    );
    assert_eq!(
        IPv4Address::from_stream(&mut stream),
        Ok(IPv4Address { address: [1, 2, 3, 4] })
    );
    assert_eq!(IPv4Address::from_stream(&mut stream), Err(DecodeError::BufferUnderrun));
    assert_eq!(stream.remaining(), 8);
}

#[test]
fn ether_type_mapping() {
    assert_eq!(EtherType::IPv4.to_code(), 0x0800);
    assert_eq!(EtherType::ARP.to_code(), 0x0806);
    assert_eq!(EtherType::IPv6.to_code(), 0x86DD);
    assert_eq!(EtherType::from_code(0x0800), Ok(EtherType::IPv4));
    assert_eq!(EtherType::from_code(0x0806), Ok(EtherType::ARP));
    assert_eq!(EtherType::from_code(0x86DD), Ok(EtherType::IPv6));
    assert_eq!(EtherType::from_code(0x0801), Err(DecodeError::UnrecognizedTag));
    assert_eq!(EtherType::from_code(0), Err(DecodeError::UnrecognizedTag));
    assert_eq!(EtherType::from_code(0xFFFF), Err(DecodeError::UnrecognizedTag));
    assert_eq!(EtherType::IPv4.name(), "IPv4");
    assert_eq!(EtherType::ARP.name(), "ARP");
    assert_eq!(EtherType::IPv6.name(), "IPv6");
}

#[test]
fn ether_type_round_trip() {
    for tag in [EtherType::IPv4, EtherType::ARP, EtherType::IPv6] {
        let mut stream = BitStream::new(tag.to_bits());
        assert_eq!(EtherType::from_stream(&mut stream), Ok(tag));
        assert_eq!(stream.remaining(), 0);
    }
    assert_eq!(EtherType::ARP.to_bits().to_u8s(), vec![0x08, 0x06]);
}

#[test]
fn an_unknown_ether_type_is_refused_and_not_consumed() {
    let mut stream = stream_of(&[0x12, 0x34, 0x08, 0x00]);
    assert_eq!(EtherType::from_stream(&mut stream), Err(DecodeError::UnrecognizedTag));
    assert_eq!(stream.remaining(), 32);
    let mut short = stream_of(&[0x08]);
    assert_eq!(EtherType::from_stream(&mut short), Err(DecodeError::BufferUnderrun));
}

#[test]
fn ethernet_header_round_trip() {
    for (fill, tag) in [(0u8, EtherType::IPv4), (0xFF, EtherType::IPv6), (0x5A, EtherType::ARP)] {
        let header = EthernetHeader {
            destination: MacAddress { address: [fill; 6] },
            source: MacAddress { address: [!fill; 6] },
            ether_type: tag,
        };
        let bits = header.to_bits();
        assert_eq!(bits.len(), 112);
        let mut stream = BitStream::new(bits);
        stream.append(0xEEu8.to_bits());
        assert_eq!(EthernetHeader::from_stream(&mut stream), Ok(header));
        assert_eq!(stream.remaining(), 8);
    }
}

#[test]
fn ethernet_header_layout() {
    let header = EthernetHeader {
        destination: MacAddress { address: [1, 2, 3, 4, 5, 6] },
        source: MacAddress { address: [7, 8, 9, 10, 11, 12] },
        ether_type: EtherType::IPv6,
    };
    assert_eq!(
        header.to_bits().to_u8s(),
        vec![1, 2, 3, 4, 5, 6, 7, 8, 9, 10, 11, 12, 0x86, 0xDD]
    );
}

#[test]
fn ethernet_header_faults_leave_the_cursor() {
    let mut frame = vec![0u8; 14];
    frame[12] = 0x99;
    let mut stream = stream_of(&frame);
    assert_eq!(EthernetHeader::from_stream(&mut stream), Err(DecodeError::UnrecognizedTag));
    assert_eq!(stream.remaining(), 112);
    let mut short = stream_of(&frame[..13]);
    assert_eq!(EthernetHeader::from_stream(&mut short), Err(DecodeError::BufferUnderrun));
    assert_eq!(short.remaining(), 104);
}

#[test]
fn arp_header_round_trip() {
    for (narrow, wide, fill) in [(0usize, 0usize, 0u8), (0xFF, 0xFFFF, 0xFF), (6, 1, 0x42)] {
        let header = ArpHeader {
            htype: wide,
            ptype: EtherType::IPv4,
            hlen: narrow,
            plen: narrow,
            oper: wide,
            sha: MacAddress { address: [fill; 6] },
            spa: IPv4Address { address: [fill; 4] },
            tha: MacAddress { address: [!fill; 6] },
            tpa: IPv4Address { address: [!fill; 4] },
        };
        let bits = header.to_bits();
        assert_eq!(bits.len(), 224);
        let mut stream = BitStream::new(bits);
        assert_eq!(ArpHeader::from_stream(&mut stream), Ok(header));
        assert_eq!(stream.remaining(), 0);
    }
}

#[test]
fn arp_header_layout() {
    let header = ArpHeader {
        htype: 1,
        ptype: EtherType::IPv4,
        hlen: 6,
        plen: 4,
        oper: 1,
        sha: MacAddress { address: [0xAA, 0xBB, 0xCC, 0xDD, 0xEE, 0xFF] },
        spa: IPv4Address { address: [192, 168, 1, 5] },
        tha: MacAddress { address: [0; 6] },
        tpa: IPv4Address { address: [192, 168, 1, 1] },
    };
    assert_eq!(
        header.to_bits().to_u8s(),
        vec![
            0, 1, 8, 0, 6, 4, 0, 1, 0xAA, 0xBB, 0xCC, 0xDD, 0xEE, 0xFF, 192, 168, 1, 5, 0, 0, 0,
            0, 0, 0, 192, 168, 1, 1
        ]
    );
}

#[test]
fn arp_header_encoding_cuts_wide_fields() {
    let header = ArpHeader {
        htype: 0x1_0001,
        ptype: EtherType::IPv4,
        hlen: 0x106,
        plen: 0x104,
        oper: 0x2_0002,
        sha: MacAddress { address: [0; 6] },
        spa: IPv4Address { address: [0; 4] },
        tha: MacAddress { address: [0; 6] },
        tpa: IPv4Address { address: [0; 4] },
    };
    let mut stream = BitStream::new(header.to_bits());
    let back = ArpHeader::from_stream(&mut stream).unwrap();
    assert_eq!((back.htype, back.hlen, back.plen, back.oper), (1, 6, 4, 2));
}

#[test]
fn arp_header_faults() {
    let mut packet = vec![0u8; 28];
    packet[2] = 0x08;
    let mut short = stream_of(&packet[..27]);
    assert_eq!(ArpHeader::from_stream(&mut short), Err(DecodeError::BufferUnderrun));
    assert_eq!(short.remaining(), 216);
    packet[2] = 0x09;
    let mut stream = stream_of(&packet);
    assert_eq!(ArpHeader::from_stream(&mut stream), Err(DecodeError::UnrecognizedTag));
    assert_eq!(stream.remaining(), 224);
}

#[test]
fn bytes_to_int_is_big_endian() {
    assert_eq!(bytes_to_int(&[]), 0);
    assert_eq!(bytes_to_int(&[0x08, 0x06]), 0x0806);
    assert_eq!(bytes_to_int(&[1, 2, 3]), 0x010203);
    assert_eq!(bytes_to_int(&[0xFF; 4]), 0xFFFF_FFFF);
    let mut long = vec![0xABu8];
    long.extend_from_slice(&[0u8; std::mem::size_of::<usize>()]);
    assert_eq!(bytes_to_int(&long), 0);
    long.push(7);
    assert_eq!(bytes_to_int(&long), 7);
}

#[test]
fn ipv4_header_round_trip_at_the_boundaries() {
    for fill in [0u8, 0xFF] {
        let header = ipv4_header(fill, 5);
        let bits = header.to_bits();
        assert_eq!(bits.len(), 160);
        let mut stream = BitStream::new(bits);
        assert_eq!(IPv4Header::from_stream(&mut stream), Ok(header));
        assert_eq!(stream.remaining(), 0);
    }
}

#[test]
fn ipv4_header_round_trip_with_the_longest_header() {
    for fill in [0u8, 0xFF] {
        let header = ipv4_header(fill, 15);
        let mut stream = BitStream::new(header.to_bits());
        stream.append(vec![0x77u8; 40].to_bits());
        stream.append(0xEEu8.to_bits());
        assert_eq!(IPv4Header::from_stream(&mut stream), Ok(header));
        assert_eq!(stream.remaining(), 8);
        assert_eq!(stream.pop(8).unwrap().to_u8(), 0xEE);
    }
}

#[test]
fn ipv4_header_options_must_be_there() {
    let header = ipv4_header(0, 15);
    let mut alone = BitStream::new(header.to_bits());
    assert_eq!(IPv4Header::from_stream(&mut alone), Err(DecodeError::BufferUnderrun));
    assert_eq!(alone.remaining(), 160);
    let mut short = BitStream::new(header.to_bits());
    short.append(vec![0u8; 39].to_bits());
    assert_eq!(IPv4Header::from_stream(&mut short), Err(DecodeError::BufferUnderrun));
    assert_eq!(short.remaining(), 160 + 39 * 8);
}

#[test]
fn ipv4_header_shorter_than_its_fixed_part_is_refused() {
    for ihl in [0u8, 4] {
        let mut stream = BitStream::new(ipv4_header(0, ihl).to_bits());
        assert_eq!(IPv4Header::from_stream(&mut stream), Err(DecodeError::BufferUnderrun));
        assert_eq!(stream.remaining(), 160);
    }
    let mut short = stream_of(&[0x45; 19]);
    assert_eq!(IPv4Header::from_stream(&mut short), Err(DecodeError::BufferUnderrun));
}

#[test]
fn ipv4_header_layout() {
    let header = IPv4Header {
        version: 4,
        ihl: 5,
        dscp: 0x2E,
        ecn: 1,
        total_length: 0x1234,
        identification: 0xABCD,
        flags: 2,
        fragment_offset: 0x1555,
        ttl: 64,
        protocol: 6,
        header_checksum: 0xBEEF,
        source_address: IPv4Address { address: [10, 0, 0, 1] },
        destination_address: IPv4Address { address: [10, 1, 0, 1] },
    };
    assert_eq!(
        header.to_bits().to_u8s(),
        vec![
            0x45, 0xB9, 0x12, 0x34, 0xAB, 0xCD, 0x55, 0x55, 64, 6, 0xBE, 0xEF, 10, 0, 0, 1, 10, 1,
            0, 1
        ]
    );
}

#[test]
fn ipv4_header_encoding_cuts_wide_fields() {
    let mut header = ipv4_header(0, 5);
    header.version = 0xF4;
    header.ihl = 0x15;
    header.dscp = 0xC1;
    header.ecn = 0xFE;
    header.flags = 0xFA;
    header.fragment_offset = 0xE001;
    let mut stream = BitStream::new(header.to_bits());
    let back = IPv4Header::from_stream(&mut stream).unwrap();
    assert_eq!(
        (back.version, back.ihl, back.dscp, back.ecn, back.flags, back.fragment_offset),
        (4, 5, 1, 2, 2, 1)
    );
}

#[test]
fn ipv6_header_round_trip() {
    for (word, fill) in [(0u32, 0u8), (0xFFFF_FFFF, 0xFF), (0x6ABC_DEF1, 0x3C)] {
        let header = IPv6Header {
            version_traffic_class_flow_label: word,
            payload_length: if fill == 0 { 0 } else { 0xFFFF },
            next_header: fill,
            hop_limit: fill,
            source_address: IPv6Address { address: [fill; 16] },
            destination_address: IPv6Address { address: [!fill; 16] },
        };
        let bits = header.to_bits();
        assert_eq!(bits.len(), 320);
        let mut stream = BitStream::new(bits);
        assert_eq!(IPv6Header::from_stream(&mut stream), Ok(header));
        assert_eq!(stream.remaining(), 0);
    }
    let mut short = stream_of(&[0x60; 39]);
    assert_eq!(IPv6Header::from_stream(&mut short), Err(DecodeError::BufferUnderrun));
    assert_eq!(short.remaining(), 312);
}

#[test]
fn ipv6_header_first_word() {
    let header = IPv6Header {
        version_traffic_class_flow_label: 0x6ABC_DEF1,
        payload_length: 0,
        next_header: 0,
        hop_limit: 0,
        source_address: IPv6Address { address: [0; 16] },
        destination_address: IPv6Address { address: [0; 16] },
    };
    assert_eq!(header.version(), 6);
    assert_eq!(header.traffic_class(), 0xAB);
    assert_eq!(header.flow_label(), 0xCDEF1);
    assert_eq!(header.to_bits().to_u8s()[..4], [0x6A, 0xBC, 0xDE, 0xF1]);
    let all = IPv6Header { version_traffic_class_flow_label: 0xFFFF_FFFF, ..header };
    assert_eq!((all.version(), all.traffic_class(), all.flow_label()), (15, 255, 0xFFFFF));
}

#[test]
fn tcp_header_round_trip_at_the_boundaries() {
    for fill in [0u8, 0xFF] {
        for data_offset in [0u8, 5, 15] {
            let header = tcp_header(fill, data_offset);
            let bits = header.to_bits();
            assert_eq!(bits.len(), 160);
            let mut stream = BitStream::new(bits);
            assert_eq!(TcpHeader::from_stream(&mut stream), Ok(header));
            assert_eq!(stream.remaining(), 0);
        }
    }
    let mut short = stream_of(&[0; 19]);
    assert_eq!(TcpHeader::from_stream(&mut short), Err(DecodeError::BufferUnderrun));
    assert_eq!(short.remaining(), 152);
}

#[test]
fn tcp_header_layout() {
    let header = TcpHeader {
        source_port: 0x1234,
        destination_port: 80,
        sequence_number: 0x0102_0304,
        acknowledgment_number: 0xA0B0_C0D0,
        data_offset: 5,
        reserved: 0xA,
        flags: TCP_SYN | TCP_ACK,
        window_size: 0xFFEE,
        checksum: 0xBEEF,
        urgent_pointer: 0x0102,
    };
    assert_eq!(
        header.to_bits().to_u8s(),
        vec![
            0x12, 0x34, 0, 80, 1, 2, 3, 4, 0xA0, 0xB0, 0xC0, 0xD0, 0x5A, 0x12, 0xFF, 0xEE, 0xBE,
            0xEF, 1, 2
        ]
    );
}

#[test]
fn tcp_flags_are_single_bits() {
    let all = [TCP_FIN, TCP_SYN, TCP_RST, TCP_PSH, TCP_ACK, TCP_URG, TCP_ECE, TCP_CWR];
    for (i, mask) in all.iter().enumerate() {
        assert_eq!(*mask, 1u8 << i);
        for (j, other) in all.iter().enumerate() {
            assert_eq!(has_flag(*other, *mask), i == j);
        }
        assert!(has_flag(0xFF, *mask));
        assert!(!has_flag(0, *mask));
    }
    assert!(has_flag(0x12, TCP_SYN) && has_flag(0x12, TCP_ACK) && !has_flag(0x12, TCP_FIN));
}

#[test]
fn append_to_reports_the_bits_added() {
    let mut stream = BitStream::new(Bits::new());
    let mac = MacAddress { address: [1, 2, 3, 4, 5, 6] };
    assert_eq!(mac.append_to(&mut stream), 48);
    assert_eq!(EtherType::ARP.append_to(&mut stream), 16);
    assert_eq!(tcp_header(0, 5).append_to(&mut stream), 160);
    assert_eq!(ipv4_header(0, 5).append_to(&mut stream), 160);
    assert_eq!(stream.remaining(), 384);
    assert_eq!(MacAddress::from_stream(&mut stream), Ok(mac));
    assert_eq!(EtherType::from_stream(&mut stream), Ok(EtherType::ARP));
    assert_eq!(TcpHeader::from_stream(&mut stream), Ok(tcp_header(0, 5)));
    assert_eq!(IPv4Header::from_stream(&mut stream), Ok(ipv4_header(0, 5)));
}

#[test]
fn header_decoder_reads_from_bytes() {
    let decoder = HeaderDecoder;
    let header = tcp_header(0xFF, 5);
    let mut bytes = header.to_bits().to_u8s();
    bytes.push(0x99);
    let back: Result<TcpHeader, DecodeError> = decoder.decode(&bytes);
    assert_eq!(back, Ok(header));
    let none: Result<IPv6Header, DecodeError> = decoder.decode(&bytes);
    assert_eq!(none, Err(DecodeError::BufferUnderrun));
    let tag: Result<EtherType, DecodeError> = decoder.decode(&[0x86, 0xDD]);
    assert_eq!(tag, Ok(EtherType::IPv6));
}

#[test]
fn frame_decoder_follows_its_mode() {
    let tun = FrameDecoder { mode: LinkMode::Tun };
    let tap = FrameDecoder { mode: LinkMode::Tap };
    assert_eq!(tun.decode(&[]), Err(DecodeError::BufferUnderrun));
    assert_eq!(tun.decode(&[0x50]), Err(DecodeError::UnrecognizedTag));
    assert_eq!(tap.decode(&[0x45; 13]), Err(DecodeError::BufferUnderrun));
}

#[test]
fn any_header_round_trips_by_its_kind() {
    let headers = [
        Header::Ethernet(EthernetHeader {
            destination: MacAddress { address: [1; 6] },
            source: MacAddress { address: [2; 6] },
            ether_type: EtherType::ARP,
        }),
        Header::Arp(ArpHeader {
            htype: 1,
            ptype: EtherType::IPv4,
            hlen: 6,
            plen: 4,
            oper: 2,
            sha: MacAddress { address: [3; 6] },
            spa: IPv4Address { address: [4; 4] },
            tha: MacAddress { address: [5; 6] },
            tpa: IPv4Address { address: [6; 4] },
        }),
        Header::IPv4(ipv4_header(0xFF, 5)),
        Header::IPv6(IPv6Header {
            version_traffic_class_flow_label: 0x6000_0001,
            payload_length: 9,
            next_header: 6,
            hop_limit: 3,
            source_address: IPv6Address { address: [7; 16] },
            destination_address: IPv6Address { address: [8; 16] },
        }),
        Header::Tcp(tcp_header(0xFF, 15)),
    ];
    let kinds =
        [HeaderKind::Ethernet, HeaderKind::Arp, HeaderKind::IPv4, HeaderKind::IPv6, HeaderKind::Tcp];
    let widths = [112usize, 224, 160, 320, 160];
    for ((header, kind), width) in headers.iter().zip(kinds).zip(widths) {
        assert_eq!(header.kind(), kind);
        let bits = header.to_bits();
        assert_eq!(bits.len(), width);
        let mut stream = BitStream::new(bits);
        assert_eq!(Header::from_stream(kind, &mut stream), Ok(*header));
        assert_eq!(stream.remaining(), 0);
        assert_eq!(Header::from_stream(kind, &mut stream), Err(DecodeError::BufferUnderrun));
    }
}
