//! The pure half of the raw key-file format: the first six bytes of the
//! file are rendered as a 6x6 bit matrix using bits 1 through 6 of each
//! byte (the top bit and the lowest bit are discarded), and the next three
//! bytes are read as one big-endian 24-bit key. Reading the file itself is
//! I/O and stays outside the library.

use vstd::prelude::*;

verus! {

/// Bit `j` of the six bits a byte contributes to the matrix, counting from
/// the most significant contributed bit: bit positions 6 down to 1 of the
/// byte.
pub open spec fn spec_matrix_bit(byte: u8, j: int) -> u8 {
    (((byte as u32) >> ((6 - j) as u32)) & 1) as u8
}

/// The 24-bit key held in the three key bytes, read big-endian. This is
/// the value obtained by concatenating the bytes' hexadecimal digits and
/// reading the result back as a hexadecimal number.
pub open spec fn spec_key_value(b0: u8, b1: u8, b2: u8) -> u32 {
    (b0 as u32 * 0x1_0000 + b1 as u32 * 0x100 + b2 as u32) as u32
}

/// The six matrix bits of one byte, most significant contributed bit first.
pub fn matrix_row(byte: u8) -> (r: Vec<u8>)
    ensures
        r@.len() == 6,
        forall|j: int| 0 <= j < 6 ==> r@[j] == spec_matrix_bit(byte, j),
{
    let mut r: Vec<u8> = Vec::new();
    let mut j: usize = 0;
    while j < 6
        invariant
            j <= 6,
            r@.len() == j,
            forall|a: int| 0 <= a < j ==> r@[a] == spec_matrix_bit(byte, a),
        decreases 6 - j,
    {
        let sh: u32 = 6 - (j as u32);
        let w: u32 = byte as u32;
        proof {
            assert((w >> sh) & 1 < 2) by (bit_vector);
        }
        let bit: u8 = ((w >> sh) & 1) as u8;
        r.push(bit);
        j = j + 1;
    }
    r
}

/// The 6x6 bit matrix rendered from the first six bytes of a key file.
pub fn bit_matrix(bytes: &Vec<u8>) -> (m: Vec<Vec<u8>>)
    requires
        bytes@.len() >= 6,
    ensures
        m@.len() == 6,
        forall|i: int| 0 <= i < 6 ==> (#[trigger] m@[i]).len() == 6,
        forall|i: int, j: int|
            0 <= i < 6 && 0 <= j < 6 ==> #[trigger] m@[i][j] == spec_matrix_bit(bytes@[i], j),
{
    let mut m: Vec<Vec<u8>> = Vec::new();
    let mut i: usize = 0;
    while i < 6
        invariant
            bytes@.len() >= 6,
            i <= 6,
            m@.len() == i,
            forall|a: int| 0 <= a < i ==> (#[trigger] m@[a]).len() == 6,
            forall|a: int, j: int|
                0 <= a < i && 0 <= j < 6 ==> #[trigger] m@[a][j] == spec_matrix_bit(bytes@[a], j),
        decreases 6 - i,
    {
        let row = matrix_row(bytes[i]);
        m.push(row);
        i = i + 1;
    }
    m
}

/// The 24-bit key value of the three key bytes.
pub fn key_value(b0: u8, b1: u8, b2: u8) -> (r: u32)
    ensures
        r == spec_key_value(b0, b1, b2),
{
    (b0 as u32) * 0x1_0000 + (b1 as u32) * 0x100 + (b2 as u32)
}

} // verus!
