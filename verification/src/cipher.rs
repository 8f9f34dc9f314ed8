//! The block-cipher engine: a 32-round Feistel network over 64-bit blocks
//! with eight 32-bit round keys and an 8x16 table of 4-bit substitution
//! entries. The round function adds a round key modulo 2^32, substitutes
//! each nibble through its row of the table, and rotates left by 11 bits.

use vstd::prelude::*;

verus! {

/// The two ways a caller can hand the engine malformed configuration.
#[derive(Clone, Copy, Debug, PartialEq, Eq, Structural)]
pub enum CipherError {
    /// The round-key sequence does not hold exactly eight keys.
    InvalidKeyLength,
    /// The substitution table is not eight rows of sixteen 4-bit entries.
    InvalidSubstitutionTable,
}

/// The direction of a cipher pass; the round-key schedule depends on it.
#[derive(Clone, Copy, Debug, PartialEq, Eq, Structural)]
pub enum Direction {
    Encrypt,
    Decrypt,
}

/// A well-formed substitution table: eight rows of sixteen entries, each
/// entry a 4-bit value.
pub open spec fn table_wf(t: Seq<Seq<u8>>) -> bool {
    &&& t.len() == 8
    &&& forall|i: int| 0 <= i < 8 ==> (#[trigger] t[i]).len() == 16
    &&& forall|i: int, j: int| 0 <= i < 8 && 0 <= j < 16 ==> #[trigger] t[i][j] < 16
}

/// The 4-bit group of `w` at nibble position `i`, least significant first.
pub open spec fn nibble(w: u32, i: int) -> u32 {
    (w >> ((4 * i) as u32)) & 0xF
}

/// The low `n` nibbles of `w` after substitution through `t`, packed back
/// at their own offsets; positions `n` and above are left zero.
pub open spec fn substitute_upto(w: u32, t: Seq<Seq<u8>>, n: int) -> u32
    decreases n,
{
    if n <= 0 {
        0u32
    } else {
        substitute_upto(w, t, n - 1)
            | ((t[n - 1][nibble(w, n - 1) as int] as u32) << ((4 * (n - 1)) as u32))
    }
}

/// Nibble substitution: each of the eight 4-bit groups of `w` is replaced
/// by the entry its row of the table holds for it.
pub open spec fn spec_substitute(w: u32, t: Seq<Seq<u8>>) -> u32 {
    substitute_upto(w, t, 8)
}

/// Addition modulo 2^32.
pub open spec fn wrap_add(x: u32, y: u32) -> u32 {
    ((x + y) % 0x1_0000_0000) as u32
}

/// Cyclic left rotation of a 32-bit word by 11 positions.
pub open spec fn rotl11(x: u32) -> u32 {
    (x << 11u32) | (x >> 21u32)
}

/// Cyclic right rotation of a 32-bit word by 11 positions.
pub open spec fn rotr11(x: u32) -> u32 {
    (x >> 11u32) | (x << 21u32)
}

/// The round function `f`: add the round key modulo 2^32, substitute the
/// nibbles, rotate left by 11.
pub open spec fn spec_f(half: u32, key: u32, t: Seq<Seq<u8>>) -> u32 {
    rotl11(spec_substitute(wrap_add(half, key), t))
}

/// The round key consumed by encryption round `i`: the eight keys in order
/// three times, then once in reverse.
pub open spec fn encrypt_key(i: int, keys: Seq<u32>) -> u32 {
    if i < 24 {
        keys[i % 8]
    } else {
        keys[7 - (i % 8)]
    }
}

/// The round key consumed by decryption round `i`: the exact reverse of
/// the encryption sequence, that is the eight keys in order once, then in
/// reverse three times.
pub open spec fn decrypt_key(i: int, keys: Seq<u32>) -> u32 {
    if i < 8 {
        keys[i % 8]
    } else {
        keys[7 - (i % 8)]
    }
}

/// The round key for round `i` of a pass in the given direction.
pub open spec fn spec_round_key(i: int, direction: Direction, keys: Seq<u32>) -> u32 {
    match direction {
        Direction::Encrypt => encrypt_key(i, keys),
        Direction::Decrypt => decrypt_key(i, keys),
    }
}

/// One encryption round: the right half moves left unchanged, and the left
/// half is folded into the round function of the right half.
pub open spec fn spec_encrypt_round(l: u32, r: u32, key: u32, t: Seq<Seq<u8>>) -> (u32, u32) {
    (r, l ^ spec_f(r, key, t))
}

/// One decryption round, the mirror image of the encryption round: the
/// left half moves right unchanged.
pub open spec fn spec_decrypt_round(l: u32, r: u32, key: u32, t: Seq<Seq<u8>>) -> (u32, u32) {
    (r ^ spec_f(l, key, t), l)
}

/// The high half of a 64-bit block.
pub open spec fn block_left(b: u64) -> u32 {
    (b >> 32u64) as u32
}

/// The low half of a 64-bit block.
pub open spec fn block_right(b: u64) -> u32 {
    (b & 0xFFFF_FFFFu64) as u32
}

/// Reassembling a block from its two halves.
pub open spec fn combine(l: u32, r: u32) -> u64 {
    ((l as u64) << 32u64) | (r as u64)
}

/// The pair of half-blocks after `n` rounds of the encryption pass.
pub open spec fn encrypt_state(b: u64, keys: Seq<u32>, t: Seq<Seq<u8>>, n: int) -> (u32, u32)
    decreases n,
{
    if n <= 0 {
        (block_left(b), block_right(b))
    } else {
        let prev = encrypt_state(b, keys, t, n - 1);
        spec_encrypt_round(prev.0, prev.1, encrypt_key(n - 1, keys), t)
    }
}

/// The pair of half-blocks after `n` rounds of the decryption pass.
pub open spec fn decrypt_state(b: u64, keys: Seq<u32>, t: Seq<Seq<u8>>, n: int) -> (u32, u32)
    decreases n,
{
    if n <= 0 {
        (block_left(b), block_right(b))
    } else {
        let prev = decrypt_state(b, keys, t, n - 1);
        spec_decrypt_round(prev.0, prev.1, decrypt_key(n - 1, keys), t)
    }
}

/// The block produced by the full 32-round encryption pass.
pub open spec fn spec_encrypt(b: u64, keys: Seq<u32>, t: Seq<Seq<u8>>) -> u64 {
    combine(encrypt_state(b, keys, t, 32).0, encrypt_state(b, keys, t, 32).1)
}

/// The block produced by the full 32-round decryption pass.
pub open spec fn spec_decrypt(b: u64, keys: Seq<u32>, t: Seq<Seq<u8>>) -> u64 {
    combine(decrypt_state(b, keys, t, 32).0, decrypt_state(b, keys, t, 32).1)
}

/// The fixed substitution table the engine starts from.
pub open spec fn standard_table() -> Seq<Seq<u8>> {
    seq![
        seq![4u8, 10, 9, 2, 13, 8, 0, 14, 6, 11, 1, 12, 7, 15, 5, 3],
        seq![14u8, 11, 4, 12, 6, 13, 15, 10, 2, 3, 8, 1, 0, 7, 5, 9],
        seq![5u8, 8, 1, 13, 10, 3, 4, 2, 14, 15, 12, 7, 6, 0, 9, 11],
        seq![7u8, 13, 10, 1, 0, 8, 9, 15, 14, 4, 6, 12, 11, 2, 5, 3],
        seq![6u8, 12, 7, 1, 5, 15, 13, 8, 4, 10, 9, 14, 0, 3, 11, 2],
        seq![4u8, 11, 10, 0, 7, 2, 1, 13, 3, 6, 8, 5, 9, 12, 15, 14],
        seq![13u8, 11, 4, 1, 3, 15, 5, 9, 0, 10, 14, 7, 6, 8, 2, 12],
        seq![1u8, 15, 13, 0, 5, 7, 10, 4, 9, 2, 3, 14, 6, 11, 8, 12],
    ]
}

/// The cipher engine: an immutable substitution table. Round keys and
/// blocks are supplied with every call; the engine holds no other state.
pub struct GostCypher {
    s_box: Vec<Vec<u8>>,
}

impl View for GostCypher {
    type V = Seq<Seq<u8>>;

    closed spec fn view(&self) -> Seq<Seq<u8>> {
        Seq::new(self.s_box@.len(), |i: int| self.s_box@[i]@)
    }
}

/// The round key for round `i` of a pass in the given direction, selected
/// from the eight supplied keys.
pub fn round_key(i: usize, direction: Direction, keys: &Vec<u32>) -> (r: u32)
    requires
        i < 32,
        keys@.len() == 8,
    ensures
        r == spec_round_key(i as int, direction, keys@),
{
    match direction {
        Direction::Encrypt => {
            if i < 24 {
                keys[i % 8]
            } else {
                keys[7 - (i % 8)]
            }
        },
        Direction::Decrypt => {
            if i < 8 {
                keys[i % 8]
            } else {
                keys[7 - (i % 8)]
            }
        },
    }
}

impl GostCypher {
    /// An engine configured with the fixed standard substitution table.
    pub fn new() -> (c: GostCypher)
        ensures
            c@ == standard_table(),
            table_wf(c@),
    {
        let s_box: Vec<Vec<u8>> = vec![
            vec![4u8, 10, 9, 2, 13, 8, 0, 14, 6, 11, 1, 12, 7, 15, 5, 3],
            vec![14u8, 11, 4, 12, 6, 13, 15, 10, 2, 3, 8, 1, 0, 7, 5, 9],
            vec![5u8, 8, 1, 13, 10, 3, 4, 2, 14, 15, 12, 7, 6, 0, 9, 11],
            vec![7u8, 13, 10, 1, 0, 8, 9, 15, 14, 4, 6, 12, 11, 2, 5, 3],
            vec![6u8, 12, 7, 1, 5, 15, 13, 8, 4, 10, 9, 14, 0, 3, 11, 2],
            vec![4u8, 11, 10, 0, 7, 2, 1, 13, 3, 6, 8, 5, 9, 12, 15, 14],
            vec![13u8, 11, 4, 1, 3, 15, 5, 9, 0, 10, 14, 7, 6, 8, 2, 12],
            vec![1u8, 15, 13, 0, 5, 7, 10, 4, 9, 2, 3, 14, 6, 11, 8, 12],
        ];
        let c = GostCypher { s_box };
        proof {
            assert(c@ =~~= standard_table());
            lemma_standard_table_wf();
        }
        c
    }

    /// An engine configured with a caller-supplied table. The table is not
    /// validated here: `encrypt` and `decrypt` check it at entry, and the
    /// substitution helpers ask for a well-formed table as a precondition.
    pub fn with_table(table: Vec<Vec<u8>>) -> (c: GostCypher)
        ensures
            c@ == Seq::new(table@.len(), |i: int| table@[i]@),
    {
        GostCypher { s_box: table }
    }

    /// Runtime validation of the stored substitution table: eight rows of
    /// sixteen entries, every entry below sixteen.
    pub fn table_valid(&self) -> (r: bool)
        ensures
            r == table_wf(self@),
    {
        if self.s_box.len() != 8 {
            return false;
        }
        let mut i: usize = 0;
        while i < 8
            invariant
                self.s_box@.len() == 8,
                i <= 8,
                forall|a: int| 0 <= a < i ==> (#[trigger] self@[a]).len() == 16,
                forall|a: int, b: int| 0 <= a < i && 0 <= b < 16 ==> #[trigger] self@[a][b] < 16,
            decreases 8 - i,
        {
            let row = &self.s_box[i];
            if row.len() != 16 {
                assert(self@[i as int].len() != 16);
                return false;
            }
            let mut j: usize = 0;
            while j < 16
                invariant
                    self.s_box@.len() == 8,
                    i < 8,
                    j <= 16,
                    row@ == self@[i as int],
                    row@.len() == 16,
                    forall|b: int| 0 <= b < j ==> #[trigger] row@[b] < 16,
                decreases 16 - j,
            {
                if row[j] >= 16 {
                    assert(self@[i as int][j as int] >= 16);
                    return false;
                }
                j = j + 1;
            }
            i = i + 1;
        }
        true
    }

    /// Nibble substitution of a 32-bit word through the stored table.
    ///
    /// The result is a function of the word and the table alone: the
    /// postcondition pins it to `spec_substitute`, so two calls on equal
    /// arguments return equal words.
    pub fn s(&self, right: u32) -> (r: u32)
        requires
            table_wf(self@),
        ensures
            r == spec_substitute(right, self@),
    {
        let mut result: u32 = 0;
        let mut i: usize = 0;
        while i < 8
            invariant
                table_wf(self@),
                i <= 8,
                result == substitute_upto(right, self@, i as int),
            decreases 8 - i,
        {
            let sh: u32 = 4 * (i as u32);
            let idx_word: u32 = (right >> sh) & 0xF;
            proof {
                assert((right >> sh) & 0xF < 16) by (bit_vector);
                assert(idx_word == nibble(right, i as int));
            }
            let idx: usize = idx_word as usize;
            proof {
                assert(self@.len() == self.s_box@.len());
                assert(self@[i as int] == self.s_box@[i as int]@);
            }
            let s_val: u8 = self.s_box[i][idx];
            proof {
                assert(s_val == self@[i as int][nibble(right, i as int) as int]);
            }
            result = result | ((s_val as u32) << sh);
            i = i + 1;
        }
        result
    }

    /// The round function `f`: add the round key modulo 2^32, substitute
    /// the nibbles, rotate left by 11 bits.
    pub fn f(&self, right: u32, k_i: u32) -> (r: u32)
        requires
            table_wf(self@),
        ensures
            r == spec_f(right, k_i, self@),
    {
        let sum: u32 = right.wrapping_add(k_i);
        proof {
            assert(sum == wrap_add(right, k_i));
        }
        let substituted: u32 = self.s(sum);
        (substituted << 11u32) | (substituted >> 21u32)
    }

    /// One round of the encryption pass.
    pub fn encryption_round(&self, input_left: u32, input_right: u32, round_key: u32) -> (r: (
        u32,
        u32,
    ))
        requires
            table_wf(self@),
        ensures
            r == spec_encrypt_round(input_left, input_right, round_key, self@),
    {
        let output_left = input_right;
        let output_right = input_left ^ self.f(input_right, round_key);
        (output_left, output_right)
    }

    /// One round of the decryption pass.
    pub fn decryption_round(&self, input_left: u32, input_right: u32, round_key: u32) -> (r: (
        u32,
        u32,
    ))
        requires
            table_wf(self@),
        ensures
            r == spec_decrypt_round(input_left, input_right, round_key, self@),
    {
        let output_right = input_left;
        let output_left = input_right ^ self.f(input_left, round_key);
        (output_left, output_right)
    }

    /// The full 32-round encryption pass. The key length and the table are
    /// checked once at entry, never per round.
    pub fn encrypt(&self, block: u64, key: &Vec<u32>) -> (r: Result<u64, CipherError>)
        ensures
            key@.len() != 8 ==> r == Err::<u64, CipherError>(CipherError::InvalidKeyLength),
            key@.len() == 8 && !table_wf(self@) ==> r == Err::<u64, CipherError>(
                CipherError::InvalidSubstitutionTable,
            ),
            key@.len() == 8 && table_wf(self@) ==> r == Ok::<u64, CipherError>(
                spec_encrypt(block, key@, self@),
            ),
    {
        if key.len() != 8 {
            return Err(CipherError::InvalidKeyLength);
        }
        if !self.table_valid() {
            return Err(CipherError::InvalidSubstitutionTable);
        }
        proof {
            assert(block >> 32u64 < 0x1_0000_0000) by (bit_vector);
            assert(block & 0xFFFF_FFFFu64 < 0x1_0000_0000) by (bit_vector);
        }
        let mut left: u32 = (block >> 32u64) as u32;
        let mut right: u32 = (block & 0xFFFF_FFFFu64) as u32;
        let mut i: usize = 0;
        while i < 32
            invariant
                table_wf(self@),
                key@.len() == 8,
                i <= 32,
                left == encrypt_state(block, key@, self@, i as int).0,
                right == encrypt_state(block, key@, self@, i as int).1,
            decreases 32 - i,
        {
            let k_i: u32 = round_key(i, Direction::Encrypt, key);
            let rr = self.encryption_round(left, right, k_i);
            left = rr.0;
            right = rr.1;
            i = i + 1;
        }
        Ok(((left as u64) << 32u64) | (right as u64))
    }

    /// The full 32-round decryption pass, consuming the round keys in the
    /// exact reverse of the encryption order.
    pub fn decrypt(&self, block: u64, key: &Vec<u32>) -> (r: Result<u64, CipherError>)
        ensures
            key@.len() != 8 ==> r == Err::<u64, CipherError>(CipherError::InvalidKeyLength),
            key@.len() == 8 && !table_wf(self@) ==> r == Err::<u64, CipherError>(
                CipherError::InvalidSubstitutionTable,
            ),
            key@.len() == 8 && table_wf(self@) ==> r == Ok::<u64, CipherError>(
                spec_decrypt(block, key@, self@),
            ),
    {
        if key.len() != 8 {
            return Err(CipherError::InvalidKeyLength);
        }
        if !self.table_valid() {
            return Err(CipherError::InvalidSubstitutionTable);
        }
        proof {
            assert(block >> 32u64 < 0x1_0000_0000) by (bit_vector);
            assert(block & 0xFFFF_FFFFu64 < 0x1_0000_0000) by (bit_vector);
        }
        let mut left: u32 = (block >> 32u64) as u32;
        let mut right: u32 = (block & 0xFFFF_FFFFu64) as u32;
        let mut i: usize = 0;
        while i < 32
            invariant
                table_wf(self@),
                key@.len() == 8,
                i <= 32,
                left == decrypt_state(block, key@, self@, i as int).0,
                right == decrypt_state(block, key@, self@, i as int).1,
            decreases 32 - i,
        {
            let k_i: u32 = round_key(i, Direction::Decrypt, key);
            let rr = self.decryption_round(left, right, k_i);
            left = rr.0;
            right = rr.1;
            i = i + 1;
        }
        Ok(((left as u64) << 32u64) | (right as u64))
    }
}

/// The fixed standard table is well formed.
pub proof fn lemma_standard_table_wf()
    ensures
        table_wf(standard_table()),
{
    assert(table_wf(standard_table()));
}

/// Rotation correctness: rotating a 32-bit word left by 11 and then right
/// by 11 restores the word.
pub proof fn lemma_rotation_inverse(x: u32)
    ensures
        rotr11(rotl11(x)) == x,
{
    assert((((x << 11u32) | (x >> 21u32)) >> 11u32) | (((x << 11u32) | (x >> 21u32)) << 21u32)
        == x) by (bit_vector);
}

/// Substituting the all-zero word selects entry 0 of every row of the
/// table, packed at the eight nibble positions.
pub proof fn lemma_substitute_zero(t: Seq<Seq<u8>>)
    requires
        table_wf(t),
    ensures
        spec_substitute(0, t) == (t[0][0] as u32) | ((t[1][0] as u32) << 4u32) | ((t[2][0]
            as u32) << 8u32) | ((t[3][0] as u32) << 12u32) | ((t[4][0] as u32) << 16u32) | ((
        t[5][0] as u32) << 20u32) | ((t[6][0] as u32) << 24u32) | ((t[7][0] as u32) << 28u32),
{
    reveal_with_fuel(substitute_upto, 9);
    assert(forall|sh: u32| (0u32 >> sh) & 0xF == 0) by (bit_vector);
    assert(nibble(0, 0) == 0);
    assert(nibble(0, 1) == 0);
    assert(nibble(0, 2) == 0);
    assert(nibble(0, 3) == 0);
    assert(nibble(0, 4) == 0);
    assert(nibble(0, 5) == 0);
    assert(nibble(0, 6) == 0);
    assert(nibble(0, 7) == 0);
    let v0 = t[0][0] as u32;
    let v1 = t[1][0] as u32;
    let v2 = t[2][0] as u32;
    let v3 = t[3][0] as u32;
    let v4 = t[4][0] as u32;
    let v5 = t[5][0] as u32;
    let v6 = t[6][0] as u32;
    let v7 = t[7][0] as u32;
    assert(spec_substitute(0, t) == (((((((0u32 | (v0 << 0u32)) | (v1 << 4u32)) | (v2 << 8u32)) | (
    v3 << 12u32)) | (v4 << 16u32)) | (v5 << 20u32)) | (v6 << 24u32)) | (v7 << 28u32));
    assert((((((((0u32 | (v0 << 0u32)) | (v1 << 4u32)) | (v2 << 8u32)) | (v3 << 12u32)) | (v4
        << 16u32)) | (v5 << 20u32)) | (v6 << 24u32)) | (v7 << 28u32) == v0 | (v1 << 4u32) | (v2
        << 8u32) | (v3 << 12u32) | (v4 << 16u32) | (v5 << 20u32) | (v6 << 24u32) | (v7
        << 28u32)) by (bit_vector);
}

/// The round keys of the two schedules mirror each other: decryption round
/// `i` consumes the key that encryption round `31 - i` consumes.
pub proof fn lemma_round_key_reverse(i: int, keys: Seq<u32>)
    requires
        0 <= i < 32,
        keys.len() == 8,
    ensures
        decrypt_key(i, keys) == encrypt_key(31 - i, keys),
{
    if i < 8 {
        assert((31 - i) % 8 == 7 - i);
    } else if i < 16 {
        assert(i % 8 == i - 8);
        assert((31 - i) % 8 == 15 - i);
    } else if i < 24 {
        assert(i % 8 == i - 16);
        assert((31 - i) % 8 == 23 - i);
    } else {
        assert(i % 8 == i - 24);
        assert((31 - i) % 8 == 7 - (i - 24));
    }
}

/// Key-schedule symmetry: the sequence of the thirty-two round keys that
/// decryption consumes is the reverse of the sequence that encryption
/// consumes.
pub proof fn lemma_key_schedule_symmetry(keys: Seq<u32>)
    requires
        keys.len() == 8,
    ensures
        Seq::new(32, |i: int| spec_round_key(i, Direction::Decrypt, keys)) == Seq::new(
            32,
            |i: int| spec_round_key(i, Direction::Encrypt, keys),
        ).reverse(),
{
    let dec = Seq::new(32, |i: int| spec_round_key(i, Direction::Decrypt, keys));
    let enc = Seq::new(32, |i: int| spec_round_key(i, Direction::Encrypt, keys));
    assert forall|i: int| 0 <= i < 32 implies dec[i] == enc.reverse()[i] by {
        lemma_round_key_reverse(i, keys);
    }
    assert(dec =~= enc.reverse());
}

/// One decryption round made with the same key undoes one encryption
/// round.
pub proof fn lemma_round_inverse(l: u32, r: u32, key: u32, t: Seq<Seq<u8>>)
    ensures
        spec_decrypt_round(
            spec_encrypt_round(l, r, key, t).0,
            spec_encrypt_round(l, r, key, t).1,
            key,
            t,
        ) == (l, r),
{
    let fv = spec_f(r, key, t);
    assert((l ^ fv) ^ fv == l) by (bit_vector);
}

/// After `j` rounds, the decryption pass over an encrypted block has
/// undone the last `j` rounds of the encryption pass.
proof fn lemma_state_inverse(b: u64, keys: Seq<u32>, t: Seq<Seq<u8>>, j: int)
    requires
        keys.len() == 8,
        0 <= j <= 32,
    ensures
        decrypt_state(spec_encrypt(b, keys, t), keys, t, j) == encrypt_state(b, keys, t, 32 - j),
    decreases j,
{
    let e = spec_encrypt(b, keys, t);
    if j == 0 {
        let l = encrypt_state(b, keys, t, 32).0;
        let r = encrypt_state(b, keys, t, 32).1;
        assert(((((l as u64) << 32u64) | (r as u64)) >> 32u64) as u32 == l) by (bit_vector);
        assert(((((l as u64) << 32u64) | (r as u64)) & 0xFFFF_FFFFu64) as u32 == r)
            by (bit_vector);
        assert(decrypt_state(e, keys, t, 0) == (block_left(e), block_right(e)));
    } else {
        lemma_state_inverse(b, keys, t, j - 1);
        lemma_round_key_reverse(j - 1, keys);
        let prev = encrypt_state(b, keys, t, 32 - j);
        assert(encrypt_state(b, keys, t, 33 - j) == spec_encrypt_round(
            prev.0,
            prev.1,
            encrypt_key(32 - j, keys),
            t,
        ));
        lemma_round_inverse(prev.0, prev.1, encrypt_key(32 - j, keys), t);
    }
}

/// Round-trip law: decrypting an encrypted block with the same keys and
/// the same table restores the block, for every valid block, key set and
/// table.
pub proof fn lemma_round_trip(block: u64, keys: Seq<u32>, t: Seq<Seq<u8>>)
    requires
        keys.len() == 8,
        table_wf(t),
    ensures
        spec_decrypt(spec_encrypt(block, keys, t), keys, t) == block,
{
    lemma_state_inverse(block, keys, t, 32);
    assert(decrypt_state(spec_encrypt(block, keys, t), keys, t, 32) == (
        block_left(block),
        block_right(block),
    ));
    assert(((((block >> 32u64) as u32) as u64) << 32u64) | (((block & 0xFFFF_FFFFu64) as u32)
        as u64) == block) by (bit_vector);
}

} // verus!
