//! A Hamming-style parity-matrix encoder. `encode` lays the data bits out
//! in a row whose positions 1, 2, 4, ... are reserved for parity bits,
//! and returns that row together with one row per parity bit: each such
//! row holds the parity bit in column 0 and, in every later column, the
//! corresponding binary digit of the column index. Parity bit `j` is the
//! mod-2 sum of the row-zero entries at columns whose index has bit `j`
//! set.

use vstd::prelude::*;

verus! {

/// Two to the power `k`.
pub open spec fn pow2(k: nat) -> nat
    decreases k,
{
    if k == 0 {
        1nat
    } else {
        2 * pow2((k - 1) as nat)
    }
}

/// The ceiling of the base-2 logarithm: the smallest `k` with
/// `pow2(k) >= n`, for `n >= 1`.
pub open spec fn clog2(n: nat) -> nat
    decreases n,
{
    if n <= 1 {
        0
    } else {
        1 + clog2(((n + 1) / 2) as nat)
    }
}

/// The data row before the parity positions are opened: a slot for column
/// zero, then the data bits. A sequence of fewer than two data bits is
/// laid out cleared.
pub open spec fn data_row(bits: Seq<u8>) -> Seq<u8> {
    seq![0u8] + (if bits.len() >= 2 {
        bits
    } else {
        Seq::new(bits.len(), |k: int| 0u8)
    })
}

/// Opens zeroed parity slots at positions 1, 2, 4, ... inside `s`: the
/// slots numbered `j` up to `cb`, slot `q` at position `pow2(q)`.
pub open spec fn with_parity_slots(s: Seq<u8>, j: nat, cb: nat) -> Seq<u8>
    decreases cb - j,
{
    if j >= cb {
        s
    } else {
        with_parity_slots(s.insert(pow2(j) as int, 0u8), (j + 1) as nat, cb)
    }
}

/// Row zero of the encoded matrix: the data row with a zeroed parity slot
/// opened at every power-of-two position.
pub open spec fn encoded_row(bits: Seq<u8>) -> Seq<u8> {
    with_parity_slots(data_row(bits), 0, clog2(bits.len()) + 1)
}

/// Binary digit `j` of the column index `col`.
pub open spec fn col_bit(col: nat, j: nat) -> u8 {
    (((col / pow2(j)) % 2) as u8)
}

/// The sum over columns 1 to `upto` (exclusive) of the row entry weighted
/// by binary digit `j` of the column index.
pub open spec fn parity_sum(row: Seq<u8>, j: nat, upto: int) -> int
    decreases upto,
{
    if upto <= 1 {
        0
    } else {
        parity_sum(row, j, upto - 1) + row[upto - 1] * col_bit((upto - 1) as nat, j)
    }
}

/// Parity bit `j` of a row: the mod-2 sum over all columns whose index
/// has binary digit `j` set.
pub open spec fn parity_bit(row: Seq<u8>, j: nat) -> u8 {
    ((parity_sum(row, j, row.len() as int) % 2) as u8)
}

/// The ceiling of the base-2 logarithm never exceeds its argument.
proof fn lemma_clog2_le(n: nat)
    ensures
        clog2(n) <= n,
    decreases n,
{
    if n > 1 {
        lemma_clog2_le(((n + 1) / 2) as nat);
    }
}

/// Walking a power-of-two bound downwards: if position `pow2(m)` fits in
/// a row of `n + 1 + m` entries, every earlier parity position fits in
/// the shorter row it is inserted into.
proof fn lemma_pow2_step_down(n: nat, m: nat, j: nat)
    requires
        n >= 1,
        j <= m,
        pow2(m) <= n + 1 + m,
    ensures
        pow2(j) <= n + 1 + j,
    decreases m - j,
{
    if j < m {
        assert(pow2(m) == 2 * pow2((m - 1) as nat));
        lemma_pow2_step_down(n, (m - 1) as nat, j);
    }
}

/// Builds the parity-augmented bit matrix of a sequence of data bits.
///
/// Row 0 is the data laid out with a cleared slot at column 0 and at each
/// power-of-two (parity) position. For each parity bit `j` there is a row
/// `j + 1` holding the parity bit in column 0 and binary digit `j` of the
/// column index in every later column. The precondition asks that every
/// parity position fall inside the matrix, which rules out the lengths
/// for which no consistent layout of this shape exists.
pub fn encode(bits: Vec<u8>) -> (m: Vec<Vec<u8>>)
    requires
        1 <= bits@.len() <= 0x10_0000,
        forall|k: int| 0 <= k < bits@.len() ==> bits@[k] <= 1,
        pow2(clog2(bits@.len())) <= bits@.len() + clog2(bits@.len()) + 1,
    ensures
        ({
            let cb = clog2(bits@.len()) + 1;
            let c = bits@.len() + cb + 1;
            &&& m@.len() == cb + 1
            &&& m@[0]@ == encoded_row(bits@)
            &&& m@[0]@.len() == c
            &&& forall|row: int| 1 <= row <= cb ==> (#[trigger] m@[row]@).len() == c
            &&& forall|row: int|
                1 <= row <= cb ==> (#[trigger] m@[row]@)[0] == parity_bit(
                    encoded_row(bits@),
                    (row - 1) as nat,
                )
            &&& forall|row: int, col: int|
                1 <= row <= cb && 1 <= col < c ==> (#[trigger] m@[row]@[col]) == col_bit(
                    col as nat,
                    (row - 1) as nat,
                )
        }),
{
    let n: usize = bits.len();
    // Number of parity bits, one more than the ceiling of the logarithm.
    let mut half: usize = n;
    let mut k: usize = 0;
    proof {
        lemma_clog2_le(n as nat);
    }
    while half > 1
        invariant
            1 <= half <= n,
            n <= 0x10_0000,
            clog2(n as nat) == k + clog2(half as nat),
            clog2(n as nat) <= n,
            n == bits@.len(),
        decreases half,
    {
        half = (half + 1) / 2;
        k = k + 1;
    }
    let cb: usize = k + 1;
    let c: usize = n + cb + 1;
    proof {
        assert forall|q: nat| q <= (cb - 1) as nat implies pow2(q) <= n + 1 + q by {
            lemma_pow2_step_down(n as nat, (cb - 1) as nat, q);
        }
    }
    // Row zero: column-zero slot, then the data bits.
    let mut row0: Vec<u8> = Vec::new();
    row0.push(0);
    if n >= 2 {
        let mut ti: usize = 0;
        while ti < n
            invariant
                n >= 2,
                ti <= n,
                n == bits@.len(),
                forall|a: int| 0 <= a < n ==> bits@[a] <= 1,
                row0@ == seq![0u8] + bits@.subrange(0, ti as int),
            decreases n - ti,
        {
            row0.push(bits[ti]);
            proof {
                assert(row0@ =~= seq![0u8] + bits@.subrange(0, ti + 1));
            }
            ti = ti + 1;
        }
    } else {
        row0.push(0);
    }
    proof {
        assert(row0@ =~= data_row(bits@));
    }
    // Open the parity slots at positions 1, 2, 4, ...
    let mut j: usize = 0;
    let mut pos: usize = 1;
    while j < cb
        invariant
            j <= cb,
            cb == clog2(n as nat) + 1,
            n == bits@.len(),
            1 <= n <= 0x10_0000,
            cb <= n + 1,
            pos == pow2(j as nat),
            row0@.len() == n + 1 + j,
            forall|a: int| 0 <= a < row0@.len() ==> #[trigger] row0@[a] <= 1,
            with_parity_slots(row0@, j as nat, cb as nat) == encoded_row(bits@),
            forall|q: nat| q <= (cb - 1) as nat ==> #[trigger] pow2(q) <= n + 1 + q,
        decreases cb - j,
    {
        proof {
            row0@.insert_ensures(pos as int, 0u8);
        }
        row0.insert(pos, 0);
        j = j + 1;
        pos = pos * 2;
    }
    assert(row0@ == encoded_row(bits@));
    assert(row0@.len() == c);
    // Row zero first, then one row per parity bit.
    let mut matrix: Vec<Vec<u8>> = Vec::new();
    matrix.push(row0);
    let mut pj: usize = 0;
    let mut p: usize = 1;
    while pj < cb
        invariant
            pj <= cb,
            cb == clog2(bits@.len()) + 1,
            c == bits@.len() + cb + 1,
            c <= 0x30_0000,
            p == pow2(pj as nat),
            p >= 1,
            matrix@.len() == 1 + pj,
            matrix@[0]@ == encoded_row(bits@),
            matrix@[0]@.len() == c,
            forall|a: int| 0 <= a < c ==> #[trigger] matrix@[0]@[a] <= 1,
            forall|rr: int| 1 <= rr <= pj ==> (#[trigger] matrix@[rr]@).len() == c,
            forall|rr: int|
                1 <= rr <= pj ==> (#[trigger] matrix@[rr]@)[0] == parity_bit(
                    encoded_row(bits@),
                    (rr - 1) as nat,
                ),
            forall|rr: int, col: int|
                1 <= rr <= pj && 1 <= col < c ==> (#[trigger] matrix@[rr]@[col]) == col_bit(
                    col as nat,
                    (rr - 1) as nat,
                ),
            forall|q: nat| q <= (cb - 1) as nat ==> #[trigger] pow2(q) <= bits@.len() + 1 + q,
        decreases cb - pj,
    {
        // The parity bit: a weighted mod-2 sum over row zero.
        let mut sum: usize = 0;
        let mut col: usize = 1;
        while col < c
            invariant
                1 <= col <= c,
                p == pow2(pj as nat),
                p >= 1,
                matrix@.len() >= 1,
                matrix@[0]@ == encoded_row(bits@),
                matrix@[0]@.len() == c,
                forall|a: int| 0 <= a < c ==> #[trigger] matrix@[0]@[a] <= 1,
                sum == parity_sum(matrix@[0]@, pj as nat, col as int),
                sum <= col,
            decreases c - col,
        {
            let mb: usize = (col / p) % 2;
            let e: u8 = matrix[0][col];
            sum = sum + (e as usize) * mb;
            col = col + 1;
        }
        let pbit: u8 = (sum % 2) as u8;
        proof {
            assert(pbit == parity_bit(encoded_row(bits@), pj as nat));
        }
        // The parity row: the bit itself, then digit `pj` of each column.
        let mut pr: Vec<u8> = Vec::new();
        pr.push(pbit);
        let mut col2: usize = 1;
        while col2 < c
            invariant
                1 <= col2 <= c,
                p == pow2(pj as nat),
                p >= 1,
                pr@.len() == col2,
                pr@[0] == pbit,
                forall|cc: int| 1 <= cc < col2 ==> #[trigger] pr@[cc] == col_bit(cc as nat, pj as nat),
            decreases c - col2,
        {
            let mb2: usize = (col2 / p) % 2;
            pr.push(mb2 as u8);
            col2 = col2 + 1;
        }
        matrix.push(pr);
        pj = pj + 1;
        p = p * 2;
    }
    matrix
}

} // verus!
