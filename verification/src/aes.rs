use vstd::prelude::*;

use crate::block::Block;

verus! {

/// The AES S-box: the fixed byte substitution table of the standard.
pub const SBOX: [u8; 256] = [
    0x63, 0x7c, 0x77, 0x7b, 0xf2, 0x6b, 0x6f, 0xc5, 0x30, 0x01, 0x67, 0x2b, 0xfe, 0xd7, 0xab, 0x76,
    0xca, 0x82, 0xc9, 0x7d, 0xfa, 0x59, 0x47, 0xf0, 0xad, 0xd4, 0xa2, 0xaf, 0x9c, 0xa4, 0x72, 0xc0,
    0xb7, 0xfd, 0x93, 0x26, 0x36, 0x3f, 0xf7, 0xcc, 0x34, 0xa5, 0xe5, 0xf1, 0x71, 0xd8, 0x31, 0x15,
    0x04, 0xc7, 0x23, 0xc3, 0x18, 0x96, 0x05, 0x9a, 0x07, 0x12, 0x80, 0xe2, 0xeb, 0x27, 0xb2, 0x75,
    0x09, 0x83, 0x2c, 0x1a, 0x1b, 0x6e, 0x5a, 0xa0, 0x52, 0x3b, 0xd6, 0xb3, 0x29, 0xe3, 0x2f, 0x84,
    0x53, 0xd1, 0x00, 0xed, 0x20, 0xfc, 0xb1, 0x5b, 0x6a, 0xcb, 0xbe, 0x39, 0x4a, 0x4c, 0x58, 0xcf,
    0xd0, 0xef, 0xaa, 0xfb, 0x43, 0x4d, 0x33, 0x85, 0x45, 0xf9, 0x02, 0x7f, 0x50, 0x3c, 0x9f, 0xa8,
    0x51, 0xa3, 0x40, 0x8f, 0x92, 0x9d, 0x38, 0xf5, 0xbc, 0xb6, 0xda, 0x21, 0x10, 0xff, 0xf3, 0xd2,
    0xcd, 0x0c, 0x13, 0xec, 0x5f, 0x97, 0x44, 0x17, 0xc4, 0xa7, 0x7e, 0x3d, 0x64, 0x5d, 0x19, 0x73,
    0x60, 0x81, 0x4f, 0xdc, 0x22, 0x2a, 0x90, 0x88, 0x46, 0xee, 0xb8, 0x14, 0xde, 0x5e, 0x0b, 0xdb,
    0xe0, 0x32, 0x3a, 0x0a, 0x49, 0x06, 0x24, 0x5c, 0xc2, 0xd3, 0xac, 0x62, 0x91, 0x95, 0xe4, 0x79,
    0xe7, 0xc8, 0x37, 0x6d, 0x8d, 0xd5, 0x4e, 0xa9, 0x6c, 0x56, 0xf4, 0xea, 0x65, 0x7a, 0xae, 0x08,
    0xba, 0x78, 0x25, 0x2e, 0x1c, 0xa6, 0xb4, 0xc6, 0xe8, 0xdd, 0x74, 0x1f, 0x4b, 0xbd, 0x8b, 0x8a,
    0x70, 0x3e, 0xb5, 0x66, 0x48, 0x03, 0xf6, 0x0e, 0x61, 0x35, 0x57, 0xb9, 0x86, 0xc1, 0x1d, 0x9e,
    0xe1, 0xf8, 0x98, 0x11, 0x69, 0xd9, 0x8e, 0x94, 0x9b, 0x1e, 0x87, 0xe9, 0xce, 0x55, 0x28, 0xdf,
    0x8c, 0xa1, 0x89, 0x0d, 0xbf, 0xe6, 0x42, 0x68, 0x41, 0x99, 0x2d, 0x0f, 0xb0, 0x54, 0xbb, 0x16,
];

/// SubBytes on one byte: the S-box entry for `x`.
pub open spec fn s_box(x: u8) -> u8 {
    SBOX@[x as int]
}

fn sbox_at(x: u8) -> (r: u8)
    ensures
        r == s_box(x),
{
    SBOX[x as usize]
}

/// Multiplication by two in GF(2^8) with the AES reduction polynomial.
pub open spec fn xtime(a: u8) -> u8 {
    (a << 1) ^ (if a & 0x80 == 0x80 {
        0x1b
    } else {
        0
    })
}

fn xtime_byte(a: u8) -> (r: u8)
    ensures
        r == xtime(a),
{
    (a << 1) ^ (if a & 0x80 == 0x80 {
        0x1b
    } else {
        0
    })
}

/// SubBytes: every byte of the state through the S-box.
pub open spec fn sub_bytes(s: Seq<u8>) -> Seq<u8> {
    Seq::new(16, |i: int| s_box(s[i]))
}

/// The source index ShiftRows reads for output index `i`, with the state laid
/// out column-major: byte `i` sits in row `i % 4` of column `i / 4`, and row
/// `r` rotates left by `r` columns.
pub open spec fn shift_rows_src(i: int) -> int {
    i % 4 + 4 * ((i / 4 + i % 4) % 4)
}

/// ShiftRows: each row of the state rotated left by its row index.
pub open spec fn shift_rows(s: Seq<u8>) -> Seq<u8> {
    Seq::new(16, |i: int| s[shift_rows_src(i)])
}

/// One output byte of MixColumns: the GF(2^8) matrix `[2 3 1 1]` row,
/// rotated by the byte's row, applied to the byte's column.
pub open spec fn mix_byte(s: Seq<u8>, i: int) -> u8 {
    let c = 4 * (i / 4);
    let a0 = s[c];
    let a1 = s[c + 1];
    let a2 = s[c + 2];
    let a3 = s[c + 3];
    if i % 4 == 0 {
        xtime(a0) ^ (xtime(a1) ^ a1) ^ a2 ^ a3
    } else if i % 4 == 1 {
        a0 ^ xtime(a1) ^ (xtime(a2) ^ a2) ^ a3
    } else if i % 4 == 2 {
        a0 ^ a1 ^ xtime(a2) ^ (xtime(a3) ^ a3)
    } else {
        (xtime(a0) ^ a0) ^ a1 ^ a2 ^ xtime(a3)
    }
}

/// MixColumns over the whole state.
pub open spec fn mix_columns(s: Seq<u8>) -> Seq<u8> {
    Seq::new(16, |i: int| mix_byte(s, i))
}

/// AddRoundKey: XOR of state and round key.
pub open spec fn add_round_key(s: Seq<u8>, k: Seq<u8>) -> Seq<u8> {
    Seq::new(16, |i: int| s[i] ^ k[i])
}

/// One main encryption round.
pub open spec fn aes_round(s: Seq<u8>, k: Seq<u8>) -> Seq<u8> {
    add_round_key(mix_columns(shift_rows(sub_bytes(s))), k)
}

/// The final round, which omits MixColumns.
pub open spec fn aes_last_round(s: Seq<u8>, k: Seq<u8>) -> Seq<u8> {
    add_round_key(shift_rows(sub_bytes(s)), k)
}

/// The round constant of round `r`, doubling in GF(2^8) each round.
pub open spec fn rcon(r: int) -> u8 {
    if r == 1 {
        0x01
    } else if r == 2 {
        0x02
    } else if r == 3 {
        0x04
    } else if r == 4 {
        0x08
    } else if r == 5 {
        0x10
    } else if r == 6 {
        0x20
    } else if r == 7 {
        0x40
    } else if r == 8 {
        0x80
    } else if r == 9 {
        0x1b
    } else {
        0x36
    }
}

/// Byte `j` of the transformed last word of the previous round key: the word
/// rotated, substituted through the S-box, and XORed with the round constant.
pub open spec fn ks_t(p: Seq<u8>, rc: u8, j: int) -> u8 {
    if j == 0 {
        s_box(p[13]) ^ rc
    } else if j == 1 {
        s_box(p[14])
    } else if j == 2 {
        s_box(p[15])
    } else {
        s_box(p[12])
    }
}

/// Byte `j` of the first word of the next round key.
pub open spec fn ks_w0(p: Seq<u8>, rc: u8, j: int) -> u8 {
    p[j] ^ ks_t(p, rc, j)
}

/// Byte `j` of the second word of the next round key.
pub open spec fn ks_w1(p: Seq<u8>, rc: u8, j: int) -> u8 {
    p[4 + j] ^ ks_w0(p, rc, j)
}

/// Byte `j` of the third word of the next round key.
pub open spec fn ks_w2(p: Seq<u8>, rc: u8, j: int) -> u8 {
    p[8 + j] ^ ks_w1(p, rc, j)
}

/// Byte `j` of the fourth word of the next round key.
pub open spec fn ks_w3(p: Seq<u8>, rc: u8, j: int) -> u8 {
    p[12 + j] ^ ks_w2(p, rc, j)
}

/// The round key derived from `p` with round constant `rc`: the XOR/shuffle
/// recurrence of the AES-128 key schedule across the four 32-bit words.
pub open spec fn next_round_key(p: Seq<u8>, rc: u8) -> Seq<u8> {
    Seq::new(
        16,
        |i: int|
            if i < 4 {
                ks_w0(p, rc, i)
            } else if i < 8 {
                ks_w1(p, rc, i - 4)
            } else if i < 12 {
                ks_w2(p, rc, i - 8)
            } else {
                ks_w3(p, rc, i - 12)
            },
    )
}

/// Round key `r` of the schedule grown from `key`.
pub open spec fn round_key(key: Seq<u8>, r: nat) -> Seq<u8>
    decreases r,
{
    if r == 0 {
        key
    } else {
        next_round_key(round_key(key, (r - 1) as nat), rcon(r as int))
    }
}

/// The full 11-entry round-key schedule of `key`.
pub open spec fn key_expansion(key: Seq<u8>) -> Seq<Seq<u8>> {
    Seq::new(11, |i: int| round_key(key, i as nat))
}

/// The state after the initial key XOR and the first `n` main rounds.
pub open spec fn encrypt_rounds(pt: Seq<u8>, ks: Seq<Seq<u8>>, n: nat) -> Seq<u8>
    decreases n,
{
    if n == 0 {
        add_round_key(pt, ks[0])
    } else {
        aes_round(encrypt_rounds(pt, ks, (n - 1) as nat), ks[n as int])
    }
}

/// Standard AES-128 encryption of one block under a given round-key
/// schedule: initial XOR, nine main rounds, and a final round without
/// MixColumns.
pub open spec fn aes128_encrypt_sched(ks: Seq<Seq<u8>>, pt: Seq<u8>) -> Seq<u8> {
    aes_last_round(encrypt_rounds(pt, ks, 9), ks[10])
}

/// Standard AES-128 encryption of one block under a key.
pub open spec fn aes128_encrypt(key: Seq<u8>, pt: Seq<u8>) -> Seq<u8> {
    aes128_encrypt_sched(key_expansion(key), pt)
}

fn sub_bytes_state(s: [u8; 16]) -> (r: [u8; 16])
    ensures
        r@ == sub_bytes(s@),
{
    let mut t = s;
    for i in 0..16
        invariant
            forall|j: int| 0 <= j < i ==> t@[j] == s_box(s@[j]),
            forall|j: int| i <= j < 16 ==> t@[j] == s@[j],
    {
        t[i] = sbox_at(s[i]);
    }
    proof {
        assert(t@ =~= sub_bytes(s@));
    }
    t
}

fn shift_rows_state(s: [u8; 16]) -> (r: [u8; 16])
    ensures
        r@ == shift_rows(s@),
{
    let mut t = s;
    for i in 0..16
        invariant
            forall|j: int| 0 <= j < i ==> t@[j] == s@[shift_rows_src(j)],
            forall|j: int| i <= j < 16 ==> t@[j] == s@[j],
    {
        t[i] = s[i % 4 + 4 * ((i / 4 + i % 4) % 4)];
    }
    proof {
        assert(t@ =~= shift_rows(s@));
    }
    t
}

fn mix_columns_state(s: [u8; 16]) -> (r: [u8; 16])
    ensures
        r@ == mix_columns(s@),
{
    let mut t = s;
    for c in 0..4
        invariant
            forall|j: int| 0 <= j < 4 * c ==> t@[j] == mix_byte(s@, j),
            forall|j: int| 4 * c <= j < 16 ==> t@[j] == s@[j],
    {
        let a0 = s[4 * c];
        let a1 = s[4 * c + 1];
        let a2 = s[4 * c + 2];
        let a3 = s[4 * c + 3];
        t[4 * c] = xtime_byte(a0) ^ (xtime_byte(a1) ^ a1) ^ a2 ^ a3;
        t[4 * c + 1] = a0 ^ xtime_byte(a1) ^ (xtime_byte(a2) ^ a2) ^ a3;
        t[4 * c + 2] = a0 ^ a1 ^ xtime_byte(a2) ^ (xtime_byte(a3) ^ a3);
        t[4 * c + 3] = (xtime_byte(a0) ^ a0) ^ a1 ^ a2 ^ xtime_byte(a3);
    }
    proof {
        assert(t@ =~= mix_columns(s@));
    }
    t
}

fn add_round_key_state(s: [u8; 16], k: [u8; 16]) -> (r: [u8; 16])
    ensures
        r@ == add_round_key(s@, k@),
{
    let mut t = s;
    for i in 0..16
        invariant
            forall|j: int| 0 <= j < i ==> t@[j] == s@[j] ^ k@[j],
            forall|j: int| i <= j < 16 ==> t@[j] == s@[j],
    {
        t[i] = s[i] ^ k[i];
    }
    proof {
        assert(t@ =~= add_round_key(s@, k@));
    }
    t
}

fn rcon_at(r: usize) -> (x: u8)
    requires
        1 <= r <= 10,
    ensures
        x == rcon(r as int),
{
    if r == 1 {
        0x01
    } else if r == 2 {
        0x02
    } else if r == 3 {
        0x04
    } else if r == 4 {
        0x08
    } else if r == 5 {
        0x10
    } else if r == 6 {
        0x20
    } else if r == 7 {
        0x40
    } else if r == 8 {
        0x80
    } else if r == 9 {
        0x1b
    } else {
        0x36
    }
}

fn next_round_key_state(p: [u8; 16], rc: u8) -> (r: [u8; 16])
    ensures
        r@ == next_round_key(p@, rc),
{
    let t0 = sbox_at(p[13]) ^ rc;
    let t1 = sbox_at(p[14]);
    let t2 = sbox_at(p[15]);
    let t3 = sbox_at(p[12]);
    let mut w = [0u8; 16];
    w[0] = p[0] ^ t0;
    w[1] = p[1] ^ t1;
    w[2] = p[2] ^ t2;
    w[3] = p[3] ^ t3;
    w[4] = p[4] ^ w[0];
    w[5] = p[5] ^ w[1];
    w[6] = p[6] ^ w[2];
    w[7] = p[7] ^ w[3];
    w[8] = p[8] ^ w[4];
    w[9] = p[9] ^ w[5];
    w[10] = p[10] ^ w[6];
    w[11] = p[11] ^ w[7];
    w[12] = p[12] ^ w[8];
    w[13] = p[13] ^ w[9];
    w[14] = p[14] ^ w[10];
    w[15] = p[15] ^ w[11];
    proof {
        assert(w@ =~= next_round_key(p@, rc));
    }
    w
}

/// The AES-128 block cipher: an immutable schedule of 11 round keys, built
/// once from a 128-bit key and then shared read-only by every encryption
/// call. Its view is the sequence of the round keys' byte sequences.
#[derive(Clone, Copy, Debug)]
pub struct Aes {
    keys: [Block; 11],
}

impl View for Aes {
    type V = Seq<Seq<u8>>;

    closed spec fn view(&self) -> Seq<Seq<u8>> {
        Seq::new(11, |i: int| self.keys@[i]@)
    }
}

impl Aes {
    /// Expands `key` into the 11-round AES-128 key schedule.
    pub fn new(key: Block) -> (r: Aes)
        ensures
            r@ == key_expansion(key@),
    {
        let mut keys: [Block; 11] = [key; 11];
        for r in 1..11
            invariant
                keys@.len() == 11,
                keys@[0] == key,
                forall|i: int| 0 <= i < r ==> #[trigger] keys@[i]@ == round_key(key@, i as nat),
        {
            let nk = next_round_key_state(keys[r - 1].bytes, rcon_at(r));
            keys[r] = Block::new(nk);
            proof {
                assert(keys@[r - 1]@ == round_key(key@, (r - 1) as nat));
                assert(round_key(key@, r as nat) == next_round_key(
                    round_key(key@, (r - 1) as nat),
                    rcon(r as int),
                ));
                assert(keys@[r as int]@ == round_key(key@, r as nat));
            }
        }
        let cipher = Aes { keys };
        proof {
            assert(cipher@ =~~= key_expansion(key@));
        }
        cipher
    }

    /// Encrypts one block: the standard AES-128 transformation of `blk`
    /// under this cipher's round-key schedule.
    pub fn encrypt_block(&self, blk: Block) -> (r: Block)
        ensures
            r@ == aes128_encrypt_sched(self@, blk@),
    {
        let mut st = add_round_key_state(blk.bytes, self.keys[0].bytes);
        proof {
            assert(st@ == encrypt_rounds(blk@, self@, 0));
        }
        for r in 1..10
            invariant
                st@ == encrypt_rounds(blk@, self@, (r - 1) as nat),
        {
            st = add_round_key_state(
                mix_columns_state(shift_rows_state(sub_bytes_state(st))),
                self.keys[r].bytes,
            );
        }
        let out = add_round_key_state(shift_rows_state(sub_bytes_state(st)), self.keys[10].bytes);
        Block::new(out)
    }

    /// Encrypts a fixed count of blocks; output block `i` equals single-block
    /// encryption of input block `i`.
    pub fn encrypt_many_blocks<const N: usize>(&self, blks: [Block; N]) -> (r: [Block; N])
        ensures
            forall|i: int| 0 <= i < N ==> #[trigger] r@[i]@ == aes128_encrypt_sched(
                self@,
                blks@[i]@,
            ),
    {
        let mut out = blks;
        for i in 0..N
            invariant
                out@.len() == N,
                forall|j: int| 0 <= j < i ==> #[trigger] out@[j]@ == aes128_encrypt_sched(
                    self@,
                    blks@[j]@,
                ),
        {
            out[i] = self.encrypt_block(blks[i]);
        }
        out
    }

    /// Encrypts a slice of blocks in place, maximal batches of eight first
    /// and then the remainder; every position ends up equal to single-block
    /// encryption of its original content.
    #[verifier::rlimit(50)]
    pub fn encrypt_block_slice(&self, blks: &mut [Block])
        ensures
            final(blks)@.len() == old(blks)@.len(),
            forall|i: int| 0 <= i < old(blks)@.len() ==> #[trigger] final(blks)@[i]@
                == aes128_encrypt_sched(self@, old(blks)@[i]@),
    {
        let len = blks.len();
        let full = len / 8;
        for b in 0..full
            invariant
                len == blks@.len(),
                blks@.len() == old(blks)@.len(),
                8 * full <= len,
                forall|i: int| 0 <= i < 8 * b ==> #[trigger] blks@[i]@ == aes128_encrypt_sched(
                    self@,
                    old(blks)@[i]@,
                ),
                forall|i: int| 8 * b <= i < len ==> #[trigger] blks@[i] == old(blks)@[i],
        {
            let base = b * 8;
            let mut buf: [Block; 8] = [blks[base]; 8];
            for k in 0..8
                invariant
                    len == blks@.len(),
                    base + 8 <= len,
                    buf@.len() == 8,
                    forall|j: int| 0 <= j < k ==> #[trigger] buf@[j] == blks@[base + j],
            {
                buf[k] = blks[base + k];
            }
            let enc = self.encrypt_many_blocks(buf);
            for k in 0..8
                invariant
                    len == blks@.len(),
                    blks@.len() == old(blks)@.len(),
                    base == 8 * b,
                    base + 8 <= len,
                    forall|j: int| 0 <= j < 8 ==> #[trigger] enc@[j]@ == aes128_encrypt_sched(
                        self@,
                        old(blks)@[base + j]@,
                    ),
                    forall|i: int| 0 <= i < base ==> #[trigger] blks@[i]@ == aes128_encrypt_sched(
                        self@,
                        old(blks)@[i]@,
                    ),
                    forall|j: int| 0 <= j < k ==> #[trigger] blks@[base + j]@
                        == aes128_encrypt_sched(self@, old(blks)@[base + j]@),
                    forall|i: int| base + k <= i < len ==> #[trigger] blks@[i] == old(blks)@[i],
            {
                blks[base + k] = enc[k];
            }
            proof {
                assert forall|i: int| 0 <= i < 8 * (b + 1) implies #[trigger] blks@[i]@
                    == aes128_encrypt_sched(self@, old(blks)@[i]@) by {
                    if i >= base {
                        assert(blks@[base + (i - base)]@ == aes128_encrypt_sched(
                            self@,
                            old(blks)@[base + (i - base)]@,
                        ));
                    }
                }
            }
        }
        let mut i = full * 8;
        while i < len
            invariant
                len == blks@.len(),
                blks@.len() == old(blks)@.len(),
                8 * full <= i <= len,
                forall|j: int| 0 <= j < i ==> #[trigger] blks@[j]@ == aes128_encrypt_sched(
                    self@,
                    old(blks)@[j]@,
                ),
                forall|j: int| i <= j < len ==> #[trigger] blks@[j] == old(blks)@[j],
            decreases len - i,
        {
            blks[i] = self.encrypt_block(blks[i]);
            i = i + 1;
        }
    }
}

/// Two ciphers whose schedules come from bit-identical keys are themselves
/// bit-identical, and encrypt every plaintext to the same ciphertext: the
/// schedule and the ciphertext are pure functions of the key bytes.
pub proof fn lemma_cipher_deterministic(a: Aes, b: Aes, key: Seq<u8>, pt: Seq<u8>)
    requires
        a@ == key_expansion(key),
        b@ == key_expansion(key),
    ensures
        a@ == b@,
        aes128_encrypt_sched(a@, pt) == aes128_encrypt_sched(b@, pt),
        aes128_encrypt_sched(a@, pt) == aes128_encrypt(key, pt),
{
}

} // verus!
