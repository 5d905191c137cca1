use vstd::prelude::*;

use crate::utils::{RenderError, lemma_index_in_bounds, lemma_pos_all_injective, lemma_pos_decompose_all, pos, spec_hflip, spec_vflip};

verus! {

/// A 4-channel 8-bit color, the unit a frame buffer stores per pixel.
#[derive(Debug, Clone, Copy, Default, PartialEq, Eq, Structural)]
pub struct TextureColor {
    pub r: u8,
    pub g: u8,
    pub b: u8,
    pub a: u8,
}

/// A width x height grid of colors in row-major order: the color of pixel
/// (x, y) sits at index x + y * width.
#[derive(Debug)]
pub struct Texture {
    pub width: u32,
    pub height: u32,
    pub data: Vec<TextureColor>,
}

impl Texture {
    /// The buffer holds exactly one color per pixel.
    pub open spec fn wf(&self) -> bool {
        self.data@.len() == self.width * self.height
    }

    /// The color stored for pixel (x, y).
    pub open spec fn color_at(&self, x: int, y: int) -> TextureColor {
        self.data@[pos(self.width as int, x, y)]
    }

    /// A buffer of the given size with every channel of every pixel zero.
    pub fn new(width: u32, height: u32) -> (r: Self)
        requires
            width * height <= usize::MAX,
        ensures
            r.wf(),
            r.width == width,
            r.height == height,
            forall|p: int|
                0 <= p < width * height ==> r.data@[p] == (TextureColor { r: 0, g: 0, b: 0, a: 0 }),
    {
        let total = (width as usize) * (height as usize);
        Texture { width, height, data: vec![TextureColor { r: 0, g: 0, b: 0, a: 0 }; total] }
    }

    pub fn get_width(&self) -> (r: u32)
        ensures
            r == self.width,
    {
        self.width
    }

    pub fn get_height(&self) -> (r: u32)
        ensures
            r == self.height,
    {
        self.height
    }

    /// Stores `color` at pixel (x, y), rejecting out-of-bounds coordinates.
    pub fn set_color(&mut self, x: u32, y: u32, color: TextureColor) -> (r: Result<
        (),
        RenderError,
    >)
        requires
            old(self).wf(),
        ensures
            final (self).wf(),
            final (self).width == old(self).width,
            final (self).height == old(self).height,
            match r {
                Ok(()) => x < old(self).width && y < old(self).height && final (self).data@ == old(
                    self,
                ).data@.update(pos(old(self).width as int, x as int, y as int), color),
                Err(e) => e == RenderError::IllegalArguments && (x >= old(self).width || y >= old(
                    self,
                ).height) && *final (self) == *old(self),
            },
    {
        if x >= self.width || y >= self.height {
            return Err(RenderError::IllegalArguments);
        }
        let len = self.data.len();
        proof {
            lemma_index_in_bounds(self.width as int, self.height as int, x as int, y as int);
        }
        let idx = (x as usize) + (y as usize) * (self.width as usize);
        self.data.set(idx, color);
        Ok(())
    }

    /// Reads the color at pixel (x, y), rejecting out-of-bounds coordinates.
    pub fn get_color(&self, x: u32, y: u32) -> (r: Result<TextureColor, RenderError>)
        requires
            self.wf(),
        ensures
            match r {
                Ok(c) => x < self.width && y < self.height && c == self.color_at(x as int, y as int),
                Err(e) => e == RenderError::IllegalArguments && (x >= self.width || y
                    >= self.height),
            },
    {
        if x >= self.width || y >= self.height {
            return Err(RenderError::IllegalArguments);
        }
        let len = self.data.len();
        proof {
            lemma_index_in_bounds(self.width as int, self.height as int, x as int, y as int);
        }
        let idx = (x as usize) + (y as usize) * (self.width as usize);
        Ok(self.data[idx])
    }

    /// Mirrors the buffer left to right in place.
    pub fn flip_horizontally(&mut self)
        requires
            old(self).wf(),
        ensures
            final (self).wf(),
            final (self).width == old(self).width,
            final (self).height == old(self).height,
            final (self).data@ == spec_hflip(
                old(self).data@,
                old(self).width as int,
                old(self).height as int,
            ),
    {
        let w = self.width;
        let h = self.height;
        let ghost w_ = w as int;
        let ghost h_ = h as int;
        let ghost orig = self.data@;
        let half_width = w >> 1;
        proof {
            assert(half_width == w / 2) by (bit_vector)
                requires
                    half_width == w >> 1,
            ;
        }
        let mut i: u32 = 0;
        while i < half_width
            invariant
                i <= half_width,
                half_width == w / 2,
                w_ == w as int,
                h_ == h as int,
                self.width == w,
                self.height == h,
                self.wf(),
                self.data@.len() == orig.len(),
                forall|x: int, y: int|
                    0 <= x < w_ && 0 <= y < h_ && (x < i || x > w_ - 1 - i)
                        ==> #[trigger] self.data@[pos(w_, x, y)] == orig[pos(w_, w_ - 1 - x, y)],
                forall|x: int, y: int|
                    0 <= x < w_ && 0 <= y < h_ && i <= x <= w_ - 1 - i
                        ==> #[trigger] self.data@[pos(w_, x, y)] == orig[pos(w_, x, y)],
            decreases half_width - i,
        {
            let ghost entry = self.data@;
            let ghost i_ = i as int;
            let mut j: u32 = 0;
            while j < h
                invariant
                    j <= h,
                    i == i_,
                    0 <= i_ < w_ / 2,
                    half_width == w / 2,
                    w_ == w as int,
                    h_ == h as int,
                    self.width == w,
                    self.height == h,
                    self.wf(),
                    self.data@.len() == entry.len(),
                    forall|x: int, y: int|
                        0 <= x < w_ && 0 <= y < h_ && x != i_ && x != w_ - 1 - i_
                            ==> #[trigger] self.data@[pos(w_, x, y)] == entry[pos(w_, x, y)],
                    forall|y: int|
                        0 <= y < j ==> #[trigger] self.data@[pos(w_, i_, y)] == entry[pos(
                            w_,
                            w_ - 1 - i_,
                            y,
                        )] && self.data@[pos(w_, w_ - 1 - i_, y)] == entry[pos(w_, i_, y)],
                    forall|y: int|
                        j <= y < h_ ==> #[trigger] self.data@[pos(w_, i_, y)] == entry[pos(
                            w_,
                            i_,
                            y,
                        )] && self.data@[pos(w_, w_ - 1 - i_, y)] == entry[pos(w_, w_ - 1 - i_, y)],
                decreases h - j,
            {
                let len = self.data.len();
                proof {
                    lemma_index_in_bounds(w_, h_, i_, j as int);
                    lemma_index_in_bounds(w_, h_, w_ - 1 - i_, j as int);
                    lemma_pos_all_injective(w_, h_);
                }
                let pos_1 = (i as usize) + (j as usize) * (w as usize);
                let pos_2 = ((w - i - 1) as usize) + (j as usize) * (w as usize);
                let ghost prev = self.data@;
                let c1 = self.data[pos_1];
                let c2 = self.data[pos_2];
                self.data.set(pos_1, c2);
                self.data.set(pos_2, c1);
                proof {
                    assert(pos_1 == pos(w_, i_, j as int));
                    assert(pos_2 == pos(w_, w_ - 1 - i_, j as int));
                    assert forall|x: int, y: int|
                        0 <= x < w_ && 0 <= y < h_ && x != i_ && x != w_ - 1 - i_ implies #[trigger] self.data@[pos(
                        w_,
                        x,
                        y,
                    )] == entry[pos(w_, x, y)] by {
                        lemma_index_in_bounds(w_, h_, x, y);
                        assert(self.data@[pos(w_, x, y)] == prev[pos(w_, x, y)]);
                    }
                    assert forall|y: int| 0 <= y < h_ && y != j implies self.data@[pos(w_, i_, y)]
                        == prev[pos(w_, i_, y)] && self.data@[pos(w_, w_ - 1 - i_, y)] == prev[pos(
                        w_,
                        w_ - 1 - i_,
                        y,
                    )] by {
                        lemma_index_in_bounds(w_, h_, i_, y);
                        lemma_index_in_bounds(w_, h_, w_ - 1 - i_, y);
                    }
                }
                j = j + 1;
            }
            proof {
                assert forall|x: int, y: int|
                    0 <= x < w_ && 0 <= y < h_ && (x < i_ + 1 || x > w_ - 1 - (i_ + 1))
                        implies #[trigger] self.data@[pos(w_, x, y)] == orig[pos(w_, w_ - 1 - x, y)] by {
                    if x == i_ {
                        assert(self.data@[pos(w_, i_, y)] == entry[pos(w_, w_ - 1 - i_, y)]);
                        assert(entry[pos(w_, w_ - 1 - i_, y)] == orig[pos(w_, w_ - 1 - i_, y)]);
                    } else if x == w_ - 1 - i_ {
                        assert(self.data@[pos(w_, i_, y)] == entry[pos(w_, w_ - 1 - i_, y)]);
                        assert(self.data@[pos(w_, w_ - 1 - i_, y)] == entry[pos(w_, i_, y)]);
                        assert(entry[pos(w_, i_, y)] == orig[pos(w_, i_, y)]);
                    } else {
                        assert(self.data@[pos(w_, x, y)] == entry[pos(w_, x, y)]);
                        assert(entry[pos(w_, x, y)] == orig[pos(w_, w_ - 1 - x, y)]);
                    }
                }
                assert forall|x: int, y: int|
                    0 <= x < w_ && 0 <= y < h_ && i_ + 1 <= x <= w_ - 1 - (i_ + 1)
                        implies #[trigger] self.data@[pos(w_, x, y)] == orig[pos(w_, x, y)] by {
                    assert(self.data@[pos(w_, x, y)] == entry[pos(w_, x, y)]);
                }
            }
            i = i + 1;
        }
        proof {
            assert forall|p: int| 0 <= p < w_ * h_ implies self.data@[p] == spec_hflip(
                orig,
                w_,
                h_,
            )[p] by {
                assert(0 < w_) by (nonlinear_arith)
                    requires
                        0 <= p < w_ * h_,
                        0 <= h_,
                ;
                lemma_pos_decompose_all(w_, h_);
                let x = p % w_;
                let y = p / w_;
                assert(p == pos(w_, x, y));
                lemma_index_in_bounds(w_, h_, w_ - 1 - x, y);
                assert(spec_hflip(orig, w_, h_)[p] == orig[pos(w_, w_ - 1 - x, y)]);
                if x < i || x > w_ - 1 - i {
                } else {
                    assert(x == w_ - 1 - x);
                }
            }
            assert(self.data@.len() == w_ * h_);
            assert(self.data@ =~= spec_hflip(orig, w_, h_));
        }
    }

    /// Mirrors the buffer top to bottom in place.
    pub fn flip_vertically(&mut self)
        requires
            old(self).wf(),
        ensures
            final (self).wf(),
            final (self).width == old(self).width,
            final (self).height == old(self).height,
            final (self).data@ == spec_vflip(
                old(self).data@,
                old(self).width as int,
                old(self).height as int,
            ),
    {
        let w = self.width;
        let h = self.height;
        let ghost w_ = w as int;
        let ghost h_ = h as int;
        let ghost orig = self.data@;
        let half_height = h >> 1;
        proof {
            assert(half_height == h / 2) by (bit_vector)
                requires
                    half_height == h >> 1,
            ;
        }
        let mut i: u32 = 0;
        while i < w
            invariant
                i <= w,
                half_height == h / 2,
                w_ == w as int,
                h_ == h as int,
                self.width == w,
                self.height == h,
                self.wf(),
                self.data@.len() == orig.len(),
                forall|x: int, y: int|
                    0 <= x < i && 0 <= y < h_ && (y < half_height || y > h_ - 1 - half_height)
                        ==> #[trigger] self.data@[pos(w_, x, y)] == orig[pos(w_, x, h_ - 1 - y)],
                forall|x: int, y: int|
                    0 <= x < w_ && 0 <= y < h_ && (i <= x || half_height <= y <= h_ - 1
                        - half_height) ==> #[trigger] self.data@[pos(w_, x, y)] == orig[pos(
                        w_,
                        x,
                        y,
                    )],
            decreases w - i,
        {
            let ghost entry = self.data@;
            let ghost i_ = i as int;
            let mut j: u32 = 0;
            while j < half_height
                invariant
                    j <= half_height,
                    half_height == h / 2,
                    i == i_,
                    0 <= i_ < w_,
                    w_ == w as int,
                    h_ == h as int,
                    self.width == w,
                    self.height == h,
                    self.wf(),
                    self.data@.len() == entry.len(),
                    forall|x: int, y: int|
                        0 <= x < w_ && 0 <= y < h_ && x != i_
                            ==> #[trigger] self.data@[pos(w_, x, y)] == entry[pos(w_, x, y)],
                    forall|y: int|
                        0 <= y < j || h_ - 1 - j < y < h_ ==> #[trigger] self.data@[pos(
                            w_,
                            i_,
                            y,
                        )] == entry[pos(w_, i_, h_ - 1 - y)],
                    forall|y: int|
                        j <= y <= h_ - 1 - j ==> #[trigger] self.data@[pos(w_, i_, y)] == entry[
                            pos(w_, i_, y)
                        ],
                decreases half_height - j,
            {
                let len = self.data.len();
                proof {
                    lemma_index_in_bounds(w_, h_, i_, j as int);
                    lemma_index_in_bounds(w_, h_, i_, h_ - 1 - j);
                    lemma_pos_all_injective(w_, h_);
                }
                let pos_1 = (i as usize) + (j as usize) * (w as usize);
                let pos_2 = (i as usize) + ((h - j - 1) as usize) * (w as usize);
                let ghost prev = self.data@;
                let c1 = self.data[pos_1];
                let c2 = self.data[pos_2];
                self.data.set(pos_1, c2);
                self.data.set(pos_2, c1);
                proof {
                    assert(pos_1 == pos(w_, i_, j as int));
                    assert(pos_2 == pos(w_, i_, h_ - 1 - j));
                    assert forall|x: int, y: int|
                        0 <= x < w_ && 0 <= y < h_ && x != i_ implies #[trigger] self.data@[pos(
                        w_,
                        x,
                        y,
                    )] == entry[pos(w_, x, y)] by {
                        lemma_index_in_bounds(w_, h_, x, y);
                        assert(self.data@[pos(w_, x, y)] == prev[pos(w_, x, y)]);
                    }
                    assert forall|y: int| 0 <= y < h_ && y != j && y != h_ - 1 - j implies self.data@[
                        pos(w_, i_, y)
                    ] == prev[pos(w_, i_, y)] by {
                        lemma_index_in_bounds(w_, h_, i_, y);
                    }
                }
                j = j + 1;
            }
            proof {
                assert forall|x: int, y: int|
                    0 <= x < i_ + 1 && 0 <= y < h_ && (y < half_height || y > h_ - 1 - half_height)
                        implies #[trigger] self.data@[pos(w_, x, y)] == orig[pos(w_, x, h_ - 1 - y)] by {
                    if x == i_ {
                        assert(self.data@[pos(w_, i_, y)] == entry[pos(w_, i_, h_ - 1 - y)]);
                        assert(entry[pos(w_, i_, h_ - 1 - y)] == orig[pos(w_, i_, h_ - 1 - y)]);
                    } else {
                        assert(self.data@[pos(w_, x, y)] == entry[pos(w_, x, y)]);
                    }
                }
                assert forall|x: int, y: int|
                    0 <= x < w_ && 0 <= y < h_ && (i_ + 1 <= x || half_height <= y <= h_ - 1
                        - half_height) implies #[trigger] self.data@[pos(w_, x, y)] == orig[pos(
                        w_,
                        x,
                        y,
                    )] by {
                    if x == i_ {
                        assert(half_height <= y <= h_ - 1 - half_height);
                        assert(self.data@[pos(w_, x, y)] == entry[pos(w_, x, y)]);
                    } else {
                        assert(self.data@[pos(w_, x, y)] == entry[pos(w_, x, y)]);
                    }
                }
            }
            i = i + 1;
        }
        proof {
            assert forall|p: int| 0 <= p < w_ * h_ implies self.data@[p] == spec_vflip(
                orig,
                w_,
                h_,
            )[p] by {
                assert(0 < w_) by (nonlinear_arith)
                    requires
                        0 <= p < w_ * h_,
                        0 <= h_,
                ;
                lemma_pos_decompose_all(w_, h_);
                let x = p % w_;
                let y = p / w_;
                assert(p == pos(w_, x, y));
                lemma_index_in_bounds(w_, h_, x, h_ - 1 - y);
                assert(spec_vflip(orig, w_, h_)[p] == orig[pos(w_, x, h_ - 1 - y)]);
                if y < half_height || y > h_ - 1 - half_height {
                } else {
                    assert(y == h_ - 1 - y);
                }
            }
            assert(self.data@.len() == w_ * h_);
            assert(self.data@ =~= spec_vflip(orig, w_, h_));
        }
    }
}

} // verus!

pub mod tga;
