//! Planes of rows that are padded to a stride, and their compact copies.
//!
//! A row has `line` visible bytes. In a plane, row `y` starts at `y * stride`; in a compact
//! copy, at `y * line`.
use vstd::arithmetic::div_mod::*;
use vstd::prelude::*;

verus! {

/// Whether byte `p` of a plane belongs to the visible part of one of the first `height` rows.
pub open spec fn visible(p: int, stride: int, height: int, line: int) -> bool {
    &&& 0 < stride
    &&& p / stride < height
    &&& p % stride < line
}

/// The offset in a compact copy of what a plane has at `p`.
pub open spec fn compact_offset(p: int, stride: int, line: int) -> int {
    (p / stride) * line + p % stride
}

/// The visible bytes of a plane, row by row, without the padding.
pub open spec fn compacted(src: Seq<u8>, stride: int, height: int, line: int) -> Seq<u8> {
    Seq::new((height * line) as nat, |i: int| src[(i / line) * stride + i % line])
}

/// Whether a plane of `len` bytes holds whole rows, so that it can be compacted.
pub open spec fn readable(len: int, stride: int, height: int, line: int) -> bool {
    if height * line == 0 {
        0 < stride || line == 0
    } else {
        line <= stride && height * stride <= len
    }
}

/// Whether a plane of `len` bytes has room for the visible part of each row.
pub open spec fn writable(len: int, stride: int, height: int, line: int) -> bool {
    0 < height ==> line <= stride && (height - 1) * stride + line <= len
}

/// The visible bytes of row `y` are the `line` bytes from `y * stride` on.
pub proof fn lemma_visible_row(p: int, stride: int, y: int, line: int)
    requires
        0 <= p,
        0 <= y,
        0 <= line <= stride,
    ensures
        visible(p, stride, y + 1, line) <==> visible(p, stride, y, line) || y * stride <= p < y
            * stride + line,
        y * stride <= p < y * stride + line ==> compact_offset(p, stride, line) == y * line + (p
            - y * stride) && p / stride == y && p % stride == p - y * stride,
{
    if 0 < stride {
        if y * stride <= p < y * stride + line {
            lemma_fundamental_div_mod_converse(p, stride, y, p - y * stride);
        } else if p / stride == y && p % stride < line {
            lemma_fundamental_div_mod(p, stride);
            lemma_mod_bound(p, stride);
            assert(stride * y == y * stride) by (nonlinear_arith);
        }
    }
}

/// Each visible byte of a plane has its place in the compact copy, and it is found there.
pub proof fn lemma_compact_offset(p: int, stride: int, height: int, line: int)
    requires
        0 <= p,
        visible(p, stride, height, line),
        line <= stride,
    ensures
        0 <= compact_offset(p, stride, line) < height * line,
        compact_offset(p, stride, line) / line == p / stride,
        compact_offset(p, stride, line) % line == p % stride,
        (p / stride) * stride + p % stride == p,
{
    let y = p / stride;
    let x = p % stride;
    lemma_fundamental_div_mod(p, stride);
    lemma_mod_bound(p, stride);
    lemma_div_pos_is_pos(p, stride);
    assert(stride * y == y * stride) by (nonlinear_arith);
    lemma_fundamental_div_mod_converse(y * line + x, line, y, x);
    assert(0 <= y * line && y * line + line <= height * line) by (nonlinear_arith)
        requires
            0 <= y < height,
            0 <= line,
    ;
}

/// A compact copy has, at the place of each visible byte, that byte.
pub proof fn lemma_compacted_at(src: Seq<u8>, p: int, stride: int, height: int, line: int)
    requires
        0 <= p,
        visible(p, stride, height, line),
        line <= stride,
    ensures
        compacted(src, stride, height, line)[compact_offset(p, stride, line)] == src[p],
{
    lemma_compact_offset(p, stride, height, line);
}

/// Compacting one row more appends the visible bytes of that row.
pub proof fn lemma_compacted_row(src: Seq<u8>, stride: int, y: int, line: int)
    requires
        0 <= y,
        0 < line <= stride,
        y * stride + line <= src.len(),
    ensures
        0 <= y * stride,
        compacted(src, stride, y + 1, line) == compacted(src, stride, y, line) + src.subrange(
            y * stride,
            y * stride + line,
        ),
{
    assert(0 <= y * line && 0 <= y * stride) by (nonlinear_arith)
        requires
            0 <= y,
            0 < line,
            0 < stride,
    ;
    assert((y + 1) * line == y * line + line) by (nonlinear_arith);
    let whole = compacted(src, stride, y + 1, line);
    let parts = compacted(src, stride, y, line) + src.subrange(y * stride, y * stride + line);
    assert forall|i: int| 0 <= i < whole.len() implies whole[i] == parts[i] by {
        if y * line <= i {
            lemma_fundamental_div_mod_converse(i, line, y, i - y * line);
        }
    }
    assert(whole =~= parts);
}

/// A plane without padding is its own compact copy.
pub proof fn lemma_compacted_unpadded(src: Seq<u8>, height: int, line: int)
    requires
        0 <= height,
        0 <= line,
        height * line <= src.len(),
    ensures
        0 <= height * line,
        compacted(src, line, height, line) == src.take(height * line),
{
    assert(0 <= height * line) by (nonlinear_arith)
        requires
            0 <= height,
            0 <= line,
    ;
    assert forall|i: int| 0 <= i < height * line implies #[trigger] src[(i / line) * line + i
        % line] == src[i] by {
        assert(line > 0) by (nonlinear_arith)
            requires
                0 < height * line,
                0 <= line,
        ;
        lemma_fundamental_div_mod(i, line);
        assert(line * (i / line) == (i / line) * line) by (nonlinear_arith);
    }
    assert(compacted(src, line, height, line) =~= src.take(height * line));
}

} // verus!
