use vstd::prelude::*;

verus! {

/// Errors reported by the renderer's fallible operations.
#[derive(Clone, Copy, Debug, PartialEq, Eq, Structural)]
pub enum RenderError {
    /// A pixel coordinate lies outside the buffer it addresses.
    IllegalArguments,
    /// An image file's type or pixel depth is not one the codec supports.
    UnsupportedFileFormat,
    /// The byte stream ended before the requested data could be read.
    ReadError,
    /// A run-length packet would produce more pixels than the image holds.
    WrongPixelNumbers,
}

/// The flat index of pixel (x, y) in a row-major buffer of width `w`.
pub open spec fn pos(w: int, x: int, y: int) -> int {
    x + y * w
}

/// Row-major indices decompose uniquely into a column and a row.
pub proof fn lemma_pos_decompose(w: int, x: int, y: int)
    requires
        0 < w,
        0 <= x < w,
        0 <= y,
    ensures
        pos(w, x, y) % w == x,
        pos(w, x, y) / w == y,
{
    vstd::arithmetic::div_mod::lemma_fundamental_div_mod_converse_mod(x + y * w, w, y, x);
    vstd::arithmetic::div_mod::lemma_fundamental_div_mod_converse_div(x + y * w, w, y, x);
}

/// Every in-bounds pixel's row-major index is within the buffer.
pub proof fn lemma_index_in_bounds(w: int, h: int, x: int, y: int) by (nonlinear_arith)
    requires
        0 <= x < w,
        0 <= y < h,
    ensures
        0 <= pos(w, x, y) < w * h,
{
}

/// Distinct in-bounds pixels have distinct row-major indices.
pub proof fn lemma_pos_all_injective(w: int, h: int)
    ensures
        forall|x1: int, y1: int, x2: int, y2: int|
            0 <= x1 < w && 0 <= y1 < h && 0 <= x2 < w && 0 <= y2 < h && #[trigger] pos(w, x1, y1)
                == #[trigger] pos(w, x2, y2) ==> x1 == x2 && y1 == y2,
{
    assert forall|x1: int, y1: int, x2: int, y2: int|
        0 <= x1 < w && 0 <= y1 < h && 0 <= x2 < w && 0 <= y2 < h && #[trigger] pos(w, x1, y1)
            == #[trigger] pos(w, x2, y2) implies x1 == x2 && y1 == y2 by {
        lemma_pos_decompose(w, x1, y1);
        lemma_pos_decompose(w, x2, y2);
    }
}

/// Decomposition of every in-bounds row-major index into column and row.
pub proof fn lemma_pos_decompose_all(w: int, h: int)
    requires
        0 < w,
    ensures
        forall|p: int|
            0 <= p < w * h ==> 0 <= #[trigger] (p % w) < w && 0 <= p / w < h && p == pos(
                w,
                p % w,
                p / w,
            ),
{
    assert forall|p: int| 0 <= p < w * h implies 0 <= #[trigger] (p % w) < w && 0 <= p / w < h && p
        == pos(w, p % w, p / w) by {
        vstd::arithmetic::div_mod::lemma_fundamental_div_mod(p, w);
        vstd::arithmetic::div_mod::lemma_mod_bound(p, w);
        vstd::arithmetic::div_mod::lemma_div_pos_is_pos(p, w);
        assert(p / w < h) by (nonlinear_arith)
            requires
                0 < w,
                0 <= p < w * h,
                w * (p / w) + p % w == p,
                0 <= p % w < w,
                0 <= p / w,
        ;
        vstd::arithmetic::mul::lemma_mul_is_commutative(w, p / w);
        assert(p == pos(w, p % w, p / w));
    }
}

/// The pixels of a row-major buffer mirrored left to right.
pub open spec fn spec_hflip<T>(pixels: Seq<T>, w: int, h: int) -> Seq<T> {
    Seq::new((w * h) as nat, |p: int| pixels[pos(w, w - 1 - p % w, p / w)])
}

/// The pixels of a row-major buffer mirrored top to bottom.
pub open spec fn spec_vflip<T>(pixels: Seq<T>, w: int, h: int) -> Seq<T> {
    Seq::new((w * h) as nat, |p: int| pixels[pos(w, p % w, h - 1 - p / w)])
}

/// Copies `bytes_to_read` bytes of `data` starting at `offset`: the
/// slice-level counterpart of taking that many bytes from a stream, failing
/// when the stream is too short.
pub fn read_n_bytes(data: &Vec<u8>, offset: usize, bytes_to_read: usize) -> (r: Result<
    Vec<u8>,
    RenderError,
>)
    ensures
        match r {
            Ok(buf) => offset + bytes_to_read <= data@.len() && buf@ == data@.subrange(
                offset as int,
                offset + bytes_to_read,
            ),
            Err(e) => e == RenderError::ReadError && offset + bytes_to_read > data@.len(),
        },
{
    if bytes_to_read > data.len() || offset > data.len() - bytes_to_read {
        return Err(RenderError::ReadError);
    }
    let mut buffer: Vec<u8> = Vec::new();
    let mut i: usize = 0;
    let len = data.len();
    while i < bytes_to_read
        invariant
            offset + bytes_to_read <= len,
            len == data@.len(),
            i <= bytes_to_read,
            buffer@ == data@.subrange(offset as int, offset + i),
        decreases bytes_to_read - i,
    {
        buffer.push(data[offset + i]);
        assert(buffer@ =~= data@.subrange(offset as int, offset + i + 1));
        i = i + 1;
    }
    Ok(buffer)
}

} // verus!
