use ferrix::protocols::arp_header::ArpHeader;
use ferrix::protocols::ether_type::EtherType;
use ferrix::protocols::ethernet_header::EthernetHeader;
use ferrix::protocols::ip::ipv4_address::IPv4Address;
use ferrix::protocols::ip::ipv4_header::IPv4Header;
use ferrix::protocols::ip::ipv6_address::IPv6Address;
use ferrix::protocols::ip::ipv6_header::IPv6Header;
use ferrix::protocols::mac_address::MacAddress;
use ferrix::protocols::tcp::tcp_header::TcpHeader;
use ferrix::text::{hex_char, push_binary, push_hex2, push_str};

const MAC: MacAddress = MacAddress { address: [0x00, 0x1A, 0x2B, 0x3C, 0xEE, 0xFF] };
const V4: IPv4Address = IPv4Address { address: [192, 168, 0, 255] };

fn v6() -> IPv6Address {
    IPv6Address {
        address: [0xFE, 0x80, 0, 0, 0, 0, 0, 0, 0, 0, 0, 0, 0, 0x0A, 0xBC, 0x01],
    }
}

#[test]
fn digits_in_three_bases() {
    for value in [0usize, 1, 2, 5, 0b1_0010, 255, 1 << 20, usize::MAX] {
        let mut out = Vec::new();
        push_binary(&mut out, value);
        assert_eq!(out.into_iter().collect::<String>(), format!("{:b}", value));
    }
    for byte in 0..=255u8 {
        let mut out = vec!['x'];
        push_hex2(&mut out, byte);
        assert_eq!(out.into_iter().collect::<String>(), format!("x{:02x}", byte));
    }
    assert_eq!((hex_char(0), hex_char(9), hex_char(10), hex_char(15)), ('0', '9', 'a', 'f'));
    let mut out = vec!['a'];
    push_str(&mut out, "bç");
    assert_eq!(out, vec!['a', 'b', 'ç']);
}

#[test]
fn addresses_as_text() {
    assert_eq!(MAC.to_text(), "mac(00:1a:2b:3c:ee:ff)");
    assert_eq!(V4.to_text(), "ipv4(192.168.0.255)");
    assert_eq!(v6().to_text(), "ipv6(fe80:0000:0000:0000:0000:0000:000a:bc01)");
    assert_eq!(IPv4Address { address: [0; 4] }.to_text(), "ipv4(0.0.0.0)");
}

#[test]
fn link_headers_as_text() {
    let ethernet = EthernetHeader {
        destination: MacAddress { address: [0xFF; 6] },
        source: MAC,
        ether_type: EtherType::ARP,
    };
    assert_eq!(
        ethernet.to_text(),
        "Ethernet { dest: mac(ff:ff:ff:ff:ff:ff), src: mac(00:1a:2b:3c:ee:ff), type: ARP }"
    );
    let arp = ArpHeader {
        htype: 1,
        ptype: EtherType::IPv4,
        hlen: 6,
        plen: 4,
        oper: 2,
        sha: MAC,
        spa: V4,
        tha: MacAddress { address: [0; 6] },
        tpa: IPv4Address { address: [10, 0, 0, 1] },
    };
    assert_eq!(
        arp.to_text(),
        "ARP { HTYPE: 1, PTYPE: IPv4, HLEN: 6, PLEN: 4, OPER: 2, SHA: mac(00:1a:2b:3c:ee:ff), SPA: ipv4(192.168.0.255), THA: mac(00:00:00:00:00:00), TPA: ipv4(10.0.0.1) }"
    );
}

#[test]
fn network_headers_as_text() {
    let ipv4 = IPv4Header {
        version: 4,
        ihl: 5,
        dscp: 0,
        ecn: 0,
        total_length: 40,
        identification: 54321,
        flags: 2,
        fragment_offset: 0,
        ttl: 64,
        protocol: 6,
        header_checksum: 0x66F6,
        source_address: IPv4Address { address: [10, 0, 0, 1] },
        destination_address: V4,
    };
    assert_eq!(
        ipv4.to_text(),
        "IPv4 { Version: 4, IHL: 5, Total Length: 40, ID: 54321, Flags: 10, Fragment Offset: 0, TTL: 64, Protocol: 6, Checksum: 26358, Src: ipv4(10.0.0.1), Dst: ipv4(192.168.0.255) }"
    );
    let ipv6 = IPv6Header {
        version_traffic_class_flow_label: 0x6ABC_DEF1,
        payload_length: 20,
        next_header: 6,
        hop_limit: 255,
        source_address: v6(),
        destination_address: IPv6Address { address: [0; 16] },
    };
    assert_eq!(
        ipv6.to_text(),
        "IPv6 { Version: 6, Traffic Class: 171, Flow Label: 843505, Payload Length: 20, Next Header: 6, Hop Limit: 255, Src: ipv6(fe80:0000:0000:0000:0000:0000:000a:bc01), Dst: ipv6(0000:0000:0000:0000:0000:0000:0000:0000) }"
    );
}

#[test]
fn tcp_header_as_text() {
    let tcp = TcpHeader {
        source_port: 80,
        destination_port: 40000,
        sequence_number: 12345,
        acknowledgment_number: 4294967295,
        data_offset: 5,
        reserved: 0,
        flags: 0x12,
        window_size: 65535,
        checksum: 0,
        urgent_pointer: 1,
    };
    assert_eq!(
        tcp.to_text(),
        "TcpHeader { Source Port: 80, Destination Port: 40000, Sequence Number: 12345, Acknowledgment Number: 4294967295, Data Offset: 5, Reserved: 0, Flags: 10010, Window Size: 65535, Checksum: 0, Urgent Pointer: 1 }"
    );
}
