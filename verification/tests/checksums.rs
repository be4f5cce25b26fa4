use ferrix::checksum::checksum;
use ferrix::error::DecodeError;
use ferrix::protocols::ip::ipv4_address::IPv4Address;
use ferrix::protocols::ip::ipv4_header::IPv4Header;
use ferrix::protocols::tcp::tcp_flags::{TCP_ACK, TCP_SYN};
use ferrix::protocols::tcp::tcp_header::TcpHeader;
use ferrix::types::bit_stream::{BitStream, Bits};
use ferrix::types::byte_object::ByteObject;

fn reference_header() -> IPv4Header {
    IPv4Header {
        version: 4,
        ihl: 5,
        dscp: 0,
        ecn: 0,
        total_length: 0,
        identification: 0,
        flags: 0,
        fragment_offset: 0,
        ttl: 64,
        protocol: 6,
        header_checksum: 0,
        source_address: IPv4Address { address: [10, 0, 0, 1] },
        destination_address: IPv4Address { address: [10, 1, 0, 1] },
    }
}

fn segment() -> TcpHeader {
    TcpHeader {
        source_port: 40000,
        destination_port: 80,
        sequence_number: 1000,
        acknowledgment_number: 0,
        data_offset: 5,
        reserved: 0,
        flags: TCP_SYN,
        window_size: 65535,
        checksum: 0,
        urgent_pointer: 0,
    }
}

fn flipped<T: ByteObject>(header: &T, bit: usize) -> T {
    let mut bools = header.to_bits().to_bools();
    bools[bit] = !bools[bit];
    let mut stream = BitStream::new(Bits::from_vec(bools));
    match T::from_stream(&mut stream) {
        Ok(header) => header,
        Err(_) => panic!("a flipped header decodes"),
    }
}

#[test]
fn checksum_of_plain_regions() {
    assert_eq!(checksum(&[]), 0xFFFF);
    assert_eq!(checksum(&[0, 0]), 0xFFFF);
    assert_eq!(checksum(&[0xFF, 0xFF]), 0);
    assert_eq!(checksum(&[0x12, 0x34]), 0xEDCB);
    assert_eq!(checksum(&[0xFF, 0xFF, 0x00, 0x01]), 0xFFFE);
}

#[test]
fn checksum_pads_an_odd_byte_with_zero() {
    assert_eq!(checksum(&[0x12, 0x34, 0x56]), 0x97CB);
    assert_eq!(checksum(&[0x12, 0x34, 0x56]), checksum(&[0x12, 0x34, 0x56, 0x00]));
    assert_eq!(checksum(&[0xAB]), !0xAB00u16);
}

#[test]
fn checksum_folds_every_carry() {
    assert_eq!(checksum(&[0xFF; 6]), 0);
    assert_eq!(checksum(&[0x80, 0x00, 0x80, 0x00]), 0xFFFE);
    let long = vec![0xFFu8; 200_000];
    assert_eq!(checksum(&long), 0);
    let mut long = vec![0xFFu8; 200_001];
    long[200_000] = 0x01;
    assert_eq!(checksum(&long), !0x0100u16);
}

#[test]
fn ipv4_checksum_reference_value() {
    assert_eq!(reference_header().calculate_checksum(), 0x66F6);
}

#[test]
fn ipv4_checksum_takes_its_own_field_as_zero() {
    let mut header = reference_header();
    header.header_checksum = 0x1234;
    assert_eq!(header.calculate_checksum(), 0x66F6);
    assert!(!header.verify_checksum());
    assert_eq!(header.check_checksum(), Err(DecodeError::ChecksumMismatch));
    header.update_checksum();
    assert_eq!(header.header_checksum, 0x66F6);
    assert!(header.verify_checksum());
    assert_eq!(header.check_checksum(), Ok(()));
    assert_eq!(checksum(&header.to_bits().to_u8s()), 0);
}

#[test]
fn ipv4_checksum_covers_the_fixed_header_only() {
    let mut plain = reference_header();
    plain.ihl = 15;
    plain.update_checksum();
    let words = [0x4F00u32, 0x4006, 0x0A00, 0x0001, 0x0A01, 0x0001];
    let sum: u32 = words.iter().sum();
    assert_eq!(plain.header_checksum, !(sum as u16));
}

#[test]
fn ipv4_update_changes_the_checksum_only() {
    let before = reference_header();
    let mut after = before;
    after.update_checksum();
    assert_eq!(IPv4Header { header_checksum: 0, ..after }, before);
    let mut again = after;
    again.update_checksum();
    assert_eq!(again, after);
}

#[test]
fn ipv4_any_flipped_bit_outside_the_checksum_is_caught() {
    let mut header = reference_header();
    header.total_length = 40;
    header.update_checksum();
    for bit in 0..160 {
        if (80..96).contains(&bit) || (4..8).contains(&bit) {
            continue;
        }
        let other = flipped(&header, bit);
        assert_ne!(other, header);
        assert!(!other.verify_checksum());
    }
    for bit in 4..8 {
        let mut bools = header.to_bits().to_bools();
        bools[bit] = !bools[bit];
        let block = Bits::from_vec(bools);
        let other = IPv4Header::read(&block);
        assert_eq!(other.header_checksum, header.header_checksum);
        assert!(!other.verify_checksum());
    }
}

#[test]
fn tcp_checksum_of_a_bare_syn() {
    let src = IPv4Address { address: [10, 0, 0, 1] };
    let dst = IPv4Address { address: [10, 1, 0, 1] };
    let words = [
        0x0A00u32, 0x0001, 0x0A01, 0x0001, 0x0006, 20, 40000, 80, 0, 1000, 0, 0, 0x5002, 65535, 0,
    ];
    let mut sum: u32 = words.iter().sum();
    while sum >> 16 != 0 {
        sum = (sum & 0xFFFF) + (sum >> 16);
    }
    assert_eq!(segment().calculate_checksum(&src, &dst, &[]), !(sum as u16));
}

#[test]
fn tcp_checksum_covers_the_payload_and_its_length() {
    let src = IPv4Address { address: [192, 168, 0, 1] };
    let dst = IPv4Address { address: [192, 168, 0, 2] };
    let header = segment();
    let empty = header.calculate_checksum(&src, &dst, &[]);
    let one = header.calculate_checksum(&src, &dst, &[0]);
    let odd = header.calculate_checksum(&src, &dst, b"abc");
    let even = header.calculate_checksum(&src, &dst, b"abc\0");
    assert_ne!(empty, one);
    assert_ne!(odd, even);
    let mut region = vec![192, 168, 0, 1, 192, 168, 0, 2, 0, 6, 0, 23];
    region.extend_from_slice(&header.to_bits().to_u8s());
    region.extend_from_slice(b"abc");
    assert_eq!(odd, checksum(&region));
}

#[test]
fn tcp_update_then_verify() {
    let src = IPv4Address { address: [10, 0, 0, 1] };
    let dst = IPv4Address { address: [10, 1, 0, 1] };
    let payload = b"GET / HTTP/1.1\r\n\r\n";
    let mut header = segment();
    header.checksum = 0x4242;
    assert!(!header.verify_checksum(&src, &dst, payload));
    assert_eq!(
        header.check_checksum(&src, &dst, payload),
        Err(DecodeError::ChecksumMismatch)
    );
    header.update_checksum(&src, &dst, payload);
    assert!(header.verify_checksum(&src, &dst, payload));
    assert_eq!(header.check_checksum(&src, &dst, payload), Ok(()));
    assert_eq!(TcpHeader { checksum: 0, ..header }, segment());
    assert!(!header.verify_checksum(&src, &dst, b"GET / HTTP/1.0\r\n\r\n"));
    assert!(!header.verify_checksum(&dst, &IPv4Address { address: [10, 1, 0, 2] }, payload));
}

#[test]
fn tcp_any_flipped_bit_outside_the_checksum_is_caught() {
    let src = IPv4Address { address: [10, 0, 0, 1] };
    let dst = IPv4Address { address: [10, 1, 0, 1] };
    let payload = [1u8, 2, 3];
    let mut header = segment();
    header.update_checksum(&src, &dst, &payload);
    for bit in 0..160 {
        if (128..144).contains(&bit) {
            continue;
        }
        let other = flipped(&header, bit);
        assert_ne!(other, header);
        assert_eq!(other.checksum, header.checksum);
        assert!(!other.verify_checksum(&src, &dst, &payload));
    }
}

#[test]
fn tcp_new_with_checksum_verifies() {
    let src = IPv4Address { address: [10, 0, 0, 1] };
    let dst = IPv4Address { address: [10, 1, 0, 1] };
    let header = TcpHeader::new_with_checksum(
        80,
        40000,
        12345,
        1001,
        5,
        0,
        TCP_SYN | TCP_ACK,
        1001,
        0,
        &src,
        &dst,
        b"hello",
    );
    assert!(header.verify_checksum(&src, &dst, b"hello"));
    let mut same = TcpHeader {
        source_port: 80,
        destination_port: 40000,
        sequence_number: 12345,
        acknowledgment_number: 1001,
        data_offset: 5,
        reserved: 0,
        flags: 0x12,
        window_size: 1001,
        checksum: 0,
        urgent_pointer: 0,
    };
    same.update_checksum(&src, &dst, b"hello");
    assert_eq!(header, same);
}
