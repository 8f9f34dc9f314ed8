use gost_cipher::hamming::encode;

#[test]
fn hamming_codes() {
    let encoded_with_hamming = encode(vec![1, 0, 0, 1, 0, 0, 1, 0, 1, 1, 1, 0, 0, 0, 1]);
    let _ = encoded_with_hamming;
}

#[test]
fn hamming_dimensions_for_fifteen_bits() {
    // 15 data bits take 5 parity bits: 6 rows, 15 + 5 + 1 columns.
    let m = encode(vec![1, 0, 0, 1, 0, 0, 1, 0, 1, 1, 1, 0, 0, 0, 1]);
    assert_eq!(m.len(), 6);
    for row in &m {
        assert_eq!(row.len(), 21);
    }
}

#[test]
fn hamming_row_zero_layout_for_fifteen_bits() {
    // Column 0 and the parity positions 1, 2, 4, 8, 16 are cleared; the
    // data bits fill the remaining columns in order.
    let m = encode(vec![1, 0, 0, 1, 0, 0, 1, 0, 1, 1, 1, 0, 0, 0, 1]);
    assert_eq!(
        m[0],
        vec![0, 0, 0, 1, 0, 0, 0, 1, 0, 0, 0, 1, 0, 1, 1, 1, 0, 0, 0, 0, 1]
    );
}

#[test]
fn hamming_full_matrix_for_three_bits() {
    // 3 data bits take 3 parity bits: 4 rows, 7 columns. Data lands at
    // columns 3, 5 and 6; each parity row holds its parity bit in column
    // 0 and one binary digit of the column index everywhere else.
    let m = encode(vec![1, 0, 1]);
    assert_eq!(
        m,
        vec![
            vec![0, 0, 0, 1, 0, 0, 1],
            vec![1, 1, 0, 1, 0, 1, 0],
            vec![0, 0, 1, 1, 0, 0, 1],
            vec![1, 0, 0, 0, 1, 1, 1],
        ]
    );
}

#[test]
fn hamming_single_bit() {
    // One data bit: two rows, three columns; the single data column is
    // laid out cleared.
    let m = encode(vec![1]);
    assert_eq!(m, vec![vec![0, 0, 0], vec![0, 1, 0]]);
}
