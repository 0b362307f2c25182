use pngme::be32::{push_u32, read_u32};
use pngme::crc::{calculate_crc, create_crc_table};

#[test]
fn crc_of_known_inputs() {
    assert_eq!(calculate_crc(b""), 0);
    assert_eq!(calculate_crc(b"a"), 0xe8b7be43);
    assert_eq!(calculate_crc(b"123456789"), 0xcbf43926);
    assert_eq!(calculate_crc(b"IEND"), 0xae426082);
    assert_eq!(
        calculate_crc(b"The quick brown fox jumps over the lazy dog"),
        0x414fa339
    );
    assert_eq!(
        calculate_crc(b"RuStThis is where your secret message will be!"),
        2882656334
    );
}

#[test]
fn table_has_the_standard_entries() {
    let table = create_crc_table();
    assert_eq!(table.len(), 256);
    assert_eq!(table[0], 0);
    assert_eq!(table[1], 0x77073096);
    assert_eq!(table[2], 0xee0e612c);
    assert_eq!(table[128], 0xedb88320);
    assert_eq!(table[255], 0x2d02ef8d);
}

#[test]
fn table_entry_is_eight_shifts_of_its_index() {
    let table = create_crc_table();
    for index in 0..256u32 {
        let mut c = index;
        for _ in 0..8 {
            c = if c & 1 == 1 { 0xedb88320 ^ (c >> 1) } else { c >> 1 };
        }
        assert_eq!(table[index as usize], c);
    }
}

#[test]
fn crc_changes_when_one_byte_changes() {
    let good = b"some bytes that are protected".to_vec();
    let crc = calculate_crc(&good);
    for at in 0..good.len() {
        for bit in 0..8 {
            let mut bad = good.clone();
            bad[at] ^= 1 << bit;
            assert_ne!(calculate_crc(&bad), crc);
        }
        let mut bad = good.clone();
        bad[at] = bad[at].wrapping_add(77);
        assert_ne!(calculate_crc(&bad), crc);
    }
}

#[test]
fn big_endian_numbers_are_written_most_significant_byte_first() {
    let mut out = vec![9u8];
    push_u32(&mut out, 0x0102_0304);
    push_u32(&mut out, 0);
    push_u32(&mut out, 0xffff_fffe);
    push_u32(&mut out, 42);
    assert_eq!(
        out,
        vec![9, 1, 2, 3, 4, 0, 0, 0, 0, 255, 255, 255, 254, 0, 0, 0, 42]
    );
    assert_eq!(read_u32(&out, 1), 0x0102_0304);
    assert_eq!(read_u32(&out, 5), 0);
    assert_eq!(read_u32(&out, 9), 0xffff_fffe);
    assert_eq!(read_u32(&out, 13), 42);
    assert_eq!(read_u32(&out, 2), 0x0203_0400);
    for x in [0u32, 1, 255, 256, 65535, 65536, 0x7fff_ffff, 0x8000_0000, u32::MAX] {
        let mut bytes = Vec::new();
        push_u32(&mut bytes, x);
        assert_eq!(bytes, x.to_be_bytes().to_vec());
        assert_eq!(read_u32(&bytes, 0), x);
    }
}
