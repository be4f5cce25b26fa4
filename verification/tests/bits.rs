use ferrix::error::DecodeError;
use ferrix::types::bit_stream::{BitStream, Bits, BitsCompatible};
use ferrix::types::bit_utils::{bits_to_uint, pack_bytes, pack_words, padded_value, uint_to_bits, BitUtils};
use ferrix::types::byte_stream::ByteStream;

#[test]
fn u8_to_bits_is_most_significant_first() {
    assert_eq!(
        BitUtils::u8_to_bits(0b1010_0001),
        vec![true, false, true, false, false, false, false, true]
    );
}

#[test]
fn u16_and_u32_to_bits_have_their_width() {
    let bits = BitUtils::u16_to_bits(0x8001);
    assert_eq!(bits.len(), 16);
    assert!(bits[0] && bits[15]);
    assert!(bits[1..15].iter().all(|b| !b));
    let bits = BitUtils::u32_to_bits(1);
    assert_eq!(bits.len(), 32);
    assert!(bits[31]);
    assert!(bits[..31].iter().all(|b| !b));
}

#[test]
fn bits_to_u8_reads_a_short_run_by_its_own_width() {
    assert_eq!(BitUtils::bits_to_u8(&[true, false, true]), 5);
    assert_eq!(BitUtils::bits_to_u8(&[]), 0);
    assert_eq!(BitUtils::bits_to_u8(&[true; 8]), 255);
}

#[test]
fn bits_to_u16_reads_thirteen_bits_as_their_value() {
    let mut bits = vec![false; 13];
    bits[0] = true;
    bits[12] = true;
    assert_eq!(BitUtils::bits_to_u16(&bits), 0x1001);
    assert_eq!(BitUtils::bits_to_u16(&[true; 16]), 0xFFFF);
    assert_eq!(BitUtils::bits_to_u32(&[true; 32]), 0xFFFF_FFFF);
}

#[test]
fn integers_survive_the_way_through_bits() {
    for v in [0u8, 1, 0x7F, 0x80, 0xA5, 0xFF] {
        assert_eq!(BitUtils::bits_to_u8(&BitUtils::u8_to_bits(v)), v);
    }
    for v in [0u16, 1, 0x0800, 0x86DD, 0xFFFF] {
        assert_eq!(BitUtils::bits_to_u16(&BitUtils::u16_to_bits(v)), v);
    }
    for v in [0u32, 1, 12345, 0x8000_0000, 0xFFFF_FFFF] {
        assert_eq!(BitUtils::bits_to_u32(&BitUtils::u32_to_bits(v)), v);
    }
}

#[test]
fn uint_to_bits_keeps_the_low_bits_only() {
    assert_eq!(uint_to_bits(0xFF, 4), vec![true; 4]);
    assert_eq!(uint_to_bits(0x12, 4), vec![false, false, true, false]);
    assert_eq!(uint_to_bits(5, 0), Vec::<bool>::new());
    let wide = uint_to_bits(u64::MAX, 70);
    assert_eq!(wide.len(), 70);
    assert!(wide[..6].iter().all(|b| !b));
    assert!(wide[6..].iter().all(|b| *b));
    assert_eq!(bits_to_uint(&uint_to_bits(0xDEAD_BEEF_0123_4567, 64)), 0xDEAD_BEEF_0123_4567);
}

#[test]
fn padded_value_fills_up_on_the_right() {
    assert_eq!(padded_value(&[true], 8), 0x80);
    assert_eq!(padded_value(&[true, true, false], 8), 0xC0);
    assert_eq!(padded_value(&[], 16), 0);
    assert_eq!(padded_value(&[true; 8], 16), 0xFF00);
}

#[test]
fn bytes_and_bits_convert_both_ways() {
    let bytes = [0x08u8, 0x00, 0xFF, 0x5A];
    let bits = BitUtils::u8s_to_bits(&bytes);
    assert_eq!(bits.len(), 32);
    assert_eq!(BitUtils::bits_to_u8s(&bits), bytes.to_vec());
    assert_eq!(pack_bytes(&bits), bytes.to_vec());
    assert_eq!(pack_words(&bits), vec![0x0800, 0xFF5A]);
}

#[test]
fn a_short_last_chunk_is_read_by_its_own_width() {
    let bits = [true, true, true, true, false, false, false, false, true, true];
    assert_eq!(BitUtils::bits_to_u8s(&bits), vec![0xF0, 3]);
    assert_eq!(pack_bytes(&bits), vec![0xF0, 0xC0]);
}

#[test]
fn packed_bytes_pad_the_last_byte_on_the_right() {
    let bits = Bits::from_vec(vec![true, true, true, true, false, false, false, false, true]);
    assert_eq!(bits.len(), 9);
    assert_eq!(bits.to_u8s(), vec![0xF0, 0x80]);
    assert_eq!(bits.to_u16s(), vec![0xF080]);
    assert_eq!(Bits::new().to_u8s(), Vec::<u8>::new());
    assert_eq!(Bits::new().to_u16s(), Vec::<u16>::new());
}

#[test]
fn an_odd_byte_makes_a_word_padded_with_zero() {
    let bits = vec![0x12u8, 0x34, 0x56].to_bits();
    assert_eq!(bits.to_u16s(), vec![0x1234, 0x5600]);
}

#[test]
fn bits_append_grows_the_width_with_the_storage() {
    let mut bits = Bits::new();
    assert_eq!(bits.len(), 0);
    bits.append(&0xAu8.to_bits().slice(4, 8));
    assert_eq!(bits.len(), 4);
    bits.append(&0x5u8.to_bits().slice(4, 8));
    assert_eq!(bits.len(), 8);
    assert_eq!(bits.to_u8(), 0xA5);
    assert_eq!(bits.to_bools(), BitUtils::u8_to_bits(0xA5));
    bits.push_uint(0x1FFF, 13);
    bits.push_bytes(&[0x42]);
    assert_eq!(bits.len(), 29);
    assert_eq!(bits.uint_at(8, 13), 0x1FFF);
    assert_eq!(bits.uint_at(21, 8), 0x42);
    assert_eq!(bits.slice(0, 16).to_u16(), 0xA5FF);
}

#[test]
fn bits_read_fields_of_any_width() {
    let bits = vec![0x45u8, 0x00, 0x12, 0x34, 0xDE, 0xAD, 0xBE, 0xEF].to_bits();
    assert_eq!(bits.uint_at(0, 4), 4);
    assert_eq!(bits.uint_at(4, 4), 5);
    assert_eq!(bits.uint_at(16, 16), 0x1234);
    assert_eq!(bits.uint_at(32, 32), 0xDEAD_BEEF);
    assert_eq!(bits.slice(32, 64).to_u32(), 0xDEAD_BEEF);
    assert_eq!(bits.uint_at(3, 0), 0);
    assert_eq!(bits.bytes_at(4, 4), vec![0xDE, 0xAD, 0xBE, 0xEF]);
    assert_eq!(bits.bytes_at(8, 0), Vec::<u8>::new());
}

#[test]
fn every_integer_type_spells_its_own_width() {
    assert_eq!(0x80u8.to_bits().len(), 8);
    assert_eq!(0x8000u16.to_bits().to_u16(), 0x8000);
    assert_eq!(0xDEAD_BEEFu32.to_bits().to_u32(), 0xDEAD_BEEF);
    let wide = 1u64.to_bits();
    assert_eq!(wide.len(), 64);
    assert_eq!(wide.uint_at(0, 64), 1);
    let word = 3usize.to_bits();
    assert_eq!(word.len(), usize::BITS as usize);
    assert_eq!(word.uint_at(word.len() - 2, 2), 3);
    assert_eq!(vec![true, false].to_bits().to_u8(), 2);
    assert_eq!([0xABu8, 0xCD][..].to_bits().to_u16(), 0xABCD);
    assert_eq!([true, true, true][..].to_bits().to_u8(), 7);
}

#[test]
fn pop_past_the_end_is_an_underrun_and_consumes_nothing() {
    let mut stream = BitStream::new(0xA5u8.to_bits());
    assert!(matches!(stream.pop(9), Err(DecodeError::BufferUnderrun)));
    assert!(matches!(stream.view(9), Err(DecodeError::BufferUnderrun)));
    assert_eq!(stream.remaining(), 8);
    assert_eq!(stream.consumed(), 0);
    let nibble = stream.pop(4).unwrap();
    assert_eq!(nibble.to_u8(), 0xA);
    assert_eq!(stream.view(4).unwrap().to_u8(), 5);
    assert_eq!(stream.remaining(), 4);
    assert_eq!(stream.pop(4).unwrap().to_u8(), 5);
    assert_eq!(stream.pop(0).unwrap().len(), 0);
    assert!(matches!(stream.pop(1), Err(DecodeError::BufferUnderrun)));
}

#[test]
fn view_does_not_move_the_cursor() {
    let stream = BitStream::new(0x4500u16.to_bits());
    assert_eq!(stream.view(4).unwrap().to_u8(), 4);
    assert_eq!(stream.view(4).unwrap().to_u8(), 4);
    assert_eq!(stream.remaining(), 16);
}

#[test]
fn append_grows_the_stream_behind_the_cursor() {
    let mut stream = BitStream::new(Bits::new());
    assert_eq!(stream.append(0xABu8.to_bits()), 8);
    assert_eq!(stream.pop(4).unwrap().to_u8(), 0xA);
    assert_eq!(stream.append(0xCDu8.to_bits()), 12);
    assert_eq!(stream.pop(12).unwrap().to_u16(), 0xBCD);
    assert_eq!(stream.into_bits().to_u8s(), vec![0xAB, 0xCD]);
}

#[test]
fn byte_stream_pops_whole_bytes() {
    let mut stream = ByteStream::new(&[1, 2, 3]);
    assert_eq!(stream.pop(2).unwrap(), vec![1, 2]);
    assert!(matches!(stream.pop(2), Err(DecodeError::BufferUnderrun)));
    assert_eq!(stream.append(&[4, 5]), 5);
    assert_eq!(stream.pop(3).unwrap(), vec![3, 4, 5]);
    assert_eq!(stream.pop(0).unwrap(), Vec::<u8>::new());
    assert!(matches!(stream.pop(1), Err(DecodeError::BufferUnderrun)));
}
