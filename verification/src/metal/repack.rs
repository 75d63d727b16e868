//! Repacking of quantised weight matrices.
//!
//! A row-major matrix stores the super-blocks of row 0, then those of row 1,
//! and so on. Block-major order stores block 0 of every row, then block 1 of
//! every row: neighbouring threads, one per row, then read neighbouring
//! blocks.
use crate::blocks;
use vstd::prelude::*;

verus! {

/// Weights per super-block.
pub const SUPER_BLOCK: usize = 256;

/// Bytes of a 4-bit super-block.
pub const Q4_K_BYTES: usize = 144;

/// Bytes of a 6-bit super-block.
pub const Q6_K_BYTES: usize = 210;

/// `dst` holds the blocks of `src`, a matrix of `rows` rows of `per_row`
/// blocks of `size` bytes, in block-major order.
pub open spec fn block_major(src: Seq<u8>, dst: Seq<u8>, rows: int, per_row: int, size: int) -> bool {
    &&& dst.len() == src.len()
    &&& forall|row: int, blk: int, byte: int|
        0 <= row < rows && 0 <= blk < per_row && 0 <= byte < size ==> dst[#[trigger] blocks::at(
            blk * rows + row,
            size,
            byte,
        )] == src[blocks::at(row * per_row + blk, size, byte)]
}

/// The source block of each block of the transposed grid.
fn transposed_order(rows: usize, per_row: usize) -> (order: Vec<usize>)
    requires
        rows * per_row <= usize::MAX,
    ensures
        order@.len() == per_row * rows,
        forall|blk: int, row: int|
            0 <= blk < per_row && 0 <= row < rows ==> #[trigger] order@[blk * rows + row] == row
                * per_row + blk,
        forall|j: int| 0 <= j < order@.len() ==> #[trigger] order@[j] < rows * per_row,
{
    let mut order: Vec<usize> = Vec::new();
    let mut blk: usize = 0;
    assert(0 * rows == 0) by (nonlinear_arith);
    while blk < per_row
        invariant
            blk <= per_row,
            rows * per_row <= usize::MAX,
            order@.len() == blk * rows,
            forall|b: int, r: int|
                0 <= b < blk && 0 <= r < rows ==> #[trigger] order@[b * rows + r] == r * per_row + b,
            forall|j: int| 0 <= j < order@.len() ==> #[trigger] order@[j] < rows * per_row,
        decreases per_row - blk,
    {
        let mut row: usize = 0;
        while row < rows
            invariant
                row <= rows,
                blk < per_row,
                rows * per_row <= usize::MAX,
                order@.len() == blk * rows + row,
                forall|b: int, r: int|
                    0 <= b < blk && 0 <= r < rows ==> #[trigger] order@[b * rows + r] == r * per_row
                        + b,
                forall|r: int|
                    0 <= r < row ==> #[trigger] order@[blk * rows + r] == r * per_row + blk,
                forall|j: int| 0 <= j < order@.len() ==> #[trigger] order@[j] < rows * per_row,
            decreases rows - row,
        {
            let ghost before = order@;
            proof {
                blocks::lemma_at_bounds(row as int, per_row as int, blk as int, rows as int);
            }
            order.push(row * per_row + blk);
            proof {
                assert forall|b: int, r: int| 0 <= b < blk && 0 <= r < rows implies #[trigger] order@[b
                    * rows + r] == r * per_row + b by {
                    blocks::lemma_at_bounds(b, rows as int, r, blk as int);
                    assert(before[b * rows + r] == r * per_row + b);
                }
                assert forall|r: int| 0 <= r < row + 1 implies #[trigger] order@[blk * rows + r] == r
                    * per_row + blk by {
                    if r < row {
                        assert(before[blk * rows + r] == r * per_row + blk);
                    }
                }
            }
            row += 1;
        }
        proof {
            assert((blk + 1) * rows == blk * rows + rows) by (nonlinear_arith);
            assert forall|b: int, r: int| 0 <= b < blk + 1 && 0 <= r < rows implies #[trigger] order@[b
                * rows + r] == r * per_row + b by {
                if b == blk {
                    assert(order@[blk * rows + r] == r * per_row + blk);
                }
            }
        }
        blk += 1;
    }
    order
}

fn repack(src: &[u8], rows: usize, per_row: usize, size: usize) -> (dst: Vec<u8>)
    requires
        size > 0,
        rows * per_row <= usize::MAX,
        src@.len() == rows * per_row * size,
    ensures
        block_major(src@, dst@, rows as int, per_row as int, size as int),
{
    let order = transposed_order(rows, per_row);
    let src_len: usize = src.len();
    proof {
        assert(per_row * rows == rows * per_row) by (nonlinear_arith);
    }
    let dst = blocks::gather_blocks(src, size, &order, rows * per_row);
    proof {
        assert forall|row: int, blk: int, byte: int|
            0 <= row < rows && 0 <= blk < per_row && 0 <= byte < size implies dst@[#[trigger] blocks::at(
            blk * rows + row,
            size as int,
            byte,
        )] == src@[blocks::at(row * per_row + blk, size as int, byte)] by {
            blocks::lemma_at_bounds(blk, rows as int, row, per_row as int);
            let j = blk * rows + row;
            assert(order@[blk * rows + row] == row * per_row + blk);
            assert(dst@[blocks::at(j, size as int, byte)] == src@[blocks::at(
                order@[j] as int,
                size as int,
                byte,
            )]);
        }
    }
    dst
}

/// Repacks a 4-bit matrix of `n` rows of `k` weights from row-major to
/// block-major order.
pub fn repack_q4_k_transposed(src: &[u8], k: usize, n: usize) -> (dst: Vec<u8>)
    requires
        n * (k / SUPER_BLOCK) <= usize::MAX,
        src@.len() == n * (k / SUPER_BLOCK) * Q4_K_BYTES,
    ensures
        block_major(src@, dst@, n as int, k as int / 256, 144),
{
    repack(src, n, k / SUPER_BLOCK, Q4_K_BYTES)
}

/// Repacks a 6-bit matrix of `n` rows of `k` weights from row-major to
/// block-major order.
pub fn repack_q6_k_transposed(src: &[u8], k: usize, n: usize) -> (dst: Vec<u8>)
    requires
        n * (k / SUPER_BLOCK) <= usize::MAX,
        src@.len() == n * (k / SUPER_BLOCK) * Q6_K_BYTES,
    ensures
        block_major(src@, dst@, n as int, k as int / 256, 210),
{
    repack(src, n, k / SUPER_BLOCK, Q6_K_BYTES)
}

/// Repacking is undone by repacking with rows and blocks exchanged: no byte
/// is lost or duplicated.
pub proof fn law_repack_is_invertible(
    src: Seq<u8>,
    packed: Seq<u8>,
    back: Seq<u8>,
    rows: int,
    per_row: int,
    size: int,
)
    requires
        rows >= 0,
        per_row >= 0,
        size > 0,
        src.len() == rows * per_row * size,
        block_major(src, packed, rows, per_row, size),
        block_major(packed, back, per_row, rows, size),
    ensures
        back == src,
{
    assert forall|i: int| 0 <= i < src.len() implies back[i] == src[i] by {
        blocks::lemma_at_surjective(i, size, rows * per_row);
        let j = i / size;
        let byte = i % size;
        assert(per_row > 0) by (nonlinear_arith)
            requires
                0 < rows * per_row,
                rows >= 0,
                per_row >= 0,
        ;
        blocks::lemma_at_surjective(j, per_row, rows);
        let row = j / per_row;
        let blk = j % per_row;
        assert(j == row * per_row + blk);
        assert(back[blocks::at(row * per_row + blk, size, byte)] == packed[blocks::at(
            blk * rows + row,
            size,
            byte,
        )]);
        assert(packed[blocks::at(blk * rows + row, size, byte)] == src[blocks::at(
            row * per_row + blk,
            size,
            byte,
        )]);
    }
    assert(back =~= src);
}

/// The block-major order of a matrix is unique.
pub proof fn law_repack_is_determined(
    src: Seq<u8>,
    x: Seq<u8>,
    y: Seq<u8>,
    rows: int,
    per_row: int,
    size: int,
)
    requires
        rows >= 0,
        per_row >= 0,
        size > 0,
        src.len() == rows * per_row * size,
        block_major(src, x, rows, per_row, size),
        block_major(src, y, rows, per_row, size),
    ensures
        x == y,
{
    assert forall|i: int| 0 <= i < src.len() implies x[i] == y[i] by {
        assert(rows * per_row == per_row * rows) by (nonlinear_arith);
        blocks::lemma_at_surjective(i, size, per_row * rows);
        let j = i / size;
        let byte = i % size;
        assert(rows > 0) by (nonlinear_arith)
            requires
                0 < per_row * rows,
                rows >= 0,
                per_row >= 0,
        ;
        blocks::lemma_at_surjective(j, rows, per_row);
        let blk = j / rows;
        let row = j % rows;
        assert(j == blk * rows + row);
        assert(x[blocks::at(blk * rows + row, size, byte)] == src[blocks::at(
            row * per_row + blk,
            size,
            byte,
        )]);
        assert(y[blocks::at(blk * rows + row, size, byte)] == src[blocks::at(
            row * per_row + blk,
            size,
            byte,
        )]);
    }
    assert(x =~= y);
}

/// Where the bytes go: byte `byte` of block `blk` of row `row` stands in a
/// row-major matrix behind all blocks of the rows above and the blocks before
/// it, and in a block-major one behind block `blk` of the rows above and all
/// earlier blocks. A block of 256 weights has 144 bytes in the 4-bit format and
/// 210 in the 6-bit one.
pub proof fn law_repack_moves_blocks(
    src: &[u8],
    k: usize,
    n: usize,
    q4: Vec<u8>,
    q6: Vec<u8>,
    row: int,
    blk: int,
    byte: int,
)
    requires
        0 <= row < n,
        0 <= blk < k as int / 256,
        0 <= byte,
    ensures
        call_ensures(repack_q4_k_transposed, (src, k, n), q4) && byte < 144 ==> q4@[(blk * n + row)
            * 144 + byte] == src@[(row * (k as int / 256) + blk) * 144 + byte],
        call_ensures(repack_q6_k_transposed, (src, k, n), q6) && byte < 210 ==> q6@[(blk * n + row)
            * 210 + byte] == src@[(row * (k as int / 256) + blk) * 210 + byte],
        call_ensures(repack_q4_k_transposed, (src, k, n), q4) ==> q4@.len() == src@.len(),
        call_ensures(repack_q6_k_transposed, (src, k, n), q6) ==> q6@.len() == src@.len(),
{
    let per_row = k as int / 256;
    if byte < 144 && call_ensures(repack_q4_k_transposed, (src, k, n), q4) {
        assert(q4@[blocks::at(blk * n + row, 144, byte)] == src@[blocks::at(
            row * per_row + blk,
            144,
            byte,
        )]);
    }
    if byte < 210 && call_ensures(repack_q6_k_transposed, (src, k, n), q6) {
        assert(q6@[blocks::at(blk * n + row, 210, byte)] == src@[blocks::at(
            row * per_row + blk,
            210,
            byte,
        )]);
    }
}

} // verus!
