use algebra::aes::Aes;
use algebra::block::Block;

fn block_from(bytes: [u8; 16]) -> Block {
    Block::new(bytes)
}

fn pattern_block(i: usize) -> Block {
    let mut b = [0u8; 16];
    let mut j = 0;
    while j < 16 {
        b[j] = (i as u8).wrapping_mul(31).wrapping_add(j as u8).wrapping_mul(17);
        j += 1;
    }
    Block::new(b)
}

#[test]
fn test_aes_known_answer() {
    let key = block_from([
        0x00, 0x01, 0x02, 0x03, 0x04, 0x05, 0x06, 0x07, 0x08, 0x09, 0x0a, 0x0b, 0x0c, 0x0d, 0x0e,
        0x0f,
    ]);
    let pt = block_from([
        0x00, 0x11, 0x22, 0x33, 0x44, 0x55, 0x66, 0x77, 0x88, 0x99, 0xaa, 0xbb, 0xcc, 0xdd, 0xee,
        0xff,
    ]);
    let cipher = Aes::new(key);
    let ct = cipher.encrypt_block(pt);
    assert_eq!(
        ct.to_bytes(),
        [
            0x69, 0xc4, 0xe0, 0xd8, 0x6a, 0x7b, 0x04, 0x30, 0xd8, 0xcd, 0xb7, 0x80, 0x70, 0xb4,
            0xc5, 0x5a
        ]
    );
}

#[test]
fn test_aes_zero_key_known_answer() {
    let cipher = Aes::new(block_from([0u8; 16]));
    let ct = cipher.encrypt_block(block_from([0u8; 16]));
    assert_eq!(
        ct.to_bytes(),
        [
            0x66, 0xe9, 0x4b, 0xd4, 0xef, 0x8a, 0x2c, 0x3b, 0x88, 0x4c, 0xfa, 0x59, 0xca, 0x34,
            0x2b, 0x2e
        ]
    );
}

#[test]
fn test_batch_matches_single() {
    let cipher = Aes::new(pattern_block(77));
    let mut blks = [Block::default(); 8];
    let mut i = 0;
    while i < 8 {
        blks[i] = pattern_block(i);
        i += 1;
    }
    let enc = cipher.encrypt_many_blocks(blks);
    for i in 0..8 {
        assert_eq!(enc[i].to_bytes(), cipher.encrypt_block(blks[i]).to_bytes());
    }
}

#[test]
fn test_batch_small_sizes_match_single() {
    let cipher = Aes::new(pattern_block(3));
    let one = cipher.encrypt_many_blocks([pattern_block(9)]);
    assert_eq!(one[0].to_bytes(), cipher.encrypt_block(pattern_block(9)).to_bytes());
    let three = cipher.encrypt_many_blocks([pattern_block(1), pattern_block(2), pattern_block(3)]);
    for i in 0..3 {
        assert_eq!(
            three[i].to_bytes(),
            cipher.encrypt_block(pattern_block(i + 1)).to_bytes()
        );
    }
}

#[test]
fn test_slice_matches_single_all_lengths() {
    let cipher = Aes::new(pattern_block(123));
    for m in 0..=33usize {
        let mut blks: Vec<Block> = (0..m).map(pattern_block).collect();
        cipher.encrypt_block_slice(&mut blks);
        assert_eq!(blks.len(), m);
        for i in 0..m {
            assert_eq!(
                blks[i].to_bytes(),
                cipher.encrypt_block(pattern_block(i)).to_bytes()
            );
        }
    }
}

#[test]
fn test_idempotent_construction() {
    let key = pattern_block(42);
    let a = Aes::new(key);
    let b = Aes::new(key);
    assert_eq!(format!("{:?}", a), format!("{:?}", b));
    for i in 0..5 {
        let pt = pattern_block(i);
        assert_eq!(a.encrypt_block(pt).to_bytes(), b.encrypt_block(pt).to_bytes());
    }
}

#[test]
fn test_block_roundtrip_and_default() {
    let bytes = [9u8, 8, 7, 6, 5, 4, 3, 2, 1, 0, 11, 12, 13, 14, 15, 16];
    assert_eq!(Block::new(bytes).to_bytes(), bytes);
    assert_eq!(Block::default().to_bytes(), [0u8; 16]);
}

#[test]
fn test_aes_fips_appendix_vector() {
    let cipher = Aes::new(block_from([
        0x2b, 0x7e, 0x15, 0x16, 0x28, 0xae, 0xd2, 0xa6, 0xab, 0xf7, 0x15, 0x88, 0x09, 0xcf, 0x4f,
        0x3c,
    ]));
    let ct = cipher.encrypt_block(block_from([
        0x32, 0x43, 0xf6, 0xa8, 0x88, 0x5a, 0x30, 0x8d, 0x31, 0x31, 0x98, 0xa2, 0xe0, 0x37, 0x07,
        0x34,
    ]));
    assert_eq!(
        ct.to_bytes(),
        [
            0x39, 0x25, 0x84, 0x1d, 0x02, 0xdc, 0x09, 0xfb, 0xdc, 0x11, 0x85, 0x97, 0x19, 0x6a,
            0x0b, 0x32
        ]
    );
}
