use vstd::prelude::*;

use crate::texture::{Texture, TextureColor};
use crate::utils::{lemma_index_in_bounds, lemma_pos_all_injective, pos};
use vstd::arithmetic::div_mod::lemma_div_multiples_vanish;
use vstd::arithmetic::mul::lemma_mul_is_distributive_add_other_way;

verus! {

/// Channel `ch` of a color: 0 is red, 1 is green, anything else is blue.
pub open spec fn spec_channel(c: TextureColor, ch: int) -> int {
    if ch == 0 {
        c.r as int
    } else if ch == 1 {
        c.g as int
    } else {
        c.b as int
    }
}

/// Whether (nx, ny) is a pixel of the buffer.
pub open spec fn spec_nb_in(f: Texture, nx: int, ny: int) -> bool {
    0 <= nx < f.width && 0 <= ny < f.height
}

/// The x offset (-1, 0 or 1) of the k-th cell of the 3x3 neighborhood.
pub open spec fn spec_nb_dx(k: int) -> int {
    k / 3 - 1
}

/// The y offset (-1, 0 or 1) of the k-th cell of the 3x3 neighborhood.
pub open spec fn spec_nb_dy(k: int) -> int {
    k % 3 - 1
}

/// How many of the first `k` neighborhood cells around (ux, uy) fall inside
/// the buffer.
pub open spec fn spec_nb_cnt(f: Texture, ux: int, uy: int, k: int) -> int
    decreases k,
{
    if k <= 0 {
        0
    } else {
        spec_nb_cnt(f, ux, uy, k - 1) + if spec_nb_in(
            f,
            ux + spec_nb_dx(k - 1),
            uy + spec_nb_dy(k - 1),
        ) {
            1int
        } else {
            0int
        }
    }
}

/// The sum of channel `ch` over the in-bounds cells among the first `k`
/// neighborhood cells around (ux, uy).
pub open spec fn spec_nb_sum(f: Texture, ux: int, uy: int, k: int, ch: int) -> int
    decreases k,
{
    if k <= 0 {
        0
    } else {
        spec_nb_sum(f, ux, uy, k - 1, ch) + if spec_nb_in(
            f,
            ux + spec_nb_dx(k - 1),
            uy + spec_nb_dy(k - 1),
        ) {
            spec_channel(f.data@[pos(f.width as int, ux + spec_nb_dx(k - 1), uy + spec_nb_dy(k - 1))], ch)
        } else {
            0int
        }
    }
}

/// Channel `ch` of the supersampled output pixel (x, y): the average of the
/// in-bounds 3x3 neighborhood of (2x, 2y), clamped to 255.
pub open spec fn spec_ssaa_channel(f: Texture, x: int, y: int, ch: int) -> int {
    let s = spec_nb_sum(f, 2 * x, 2 * y, 9, ch);
    let c = spec_nb_cnt(f, 2 * x, 2 * y, 9);
    if s / c > 255 {
        255
    } else {
        s / c
    }
}

/// Neighborhood counts never decrease as cells are added, and they stay
/// within the number of cells looked at.
proof fn lemma_nb_cnt_range(f: Texture, ux: int, uy: int, k: int)
    requires
        0 <= k,
    ensures
        0 <= spec_nb_cnt(f, ux, uy, k) <= k,
    decreases k,
{
    if k > 0 {
        lemma_nb_cnt_range(f, ux, uy, k - 1);
    }
}

/// The neighborhood of a pixel whose center lies in the buffer has at least
/// one in-bounds cell: the center, at offset index 4.
proof fn lemma_nb_cnt_center(f: Texture, ux: int, uy: int)
    requires
        spec_nb_in(f, ux, uy),
    ensures
        spec_nb_cnt(f, ux, uy, 9) >= 1,
{
    assert forall|k: int| 5 <= k <= 9 implies spec_nb_cnt(f, ux, uy, k) >= 1 by {
        lemma_nb_cnt_range(f, ux, uy, 4);
        assert(spec_nb_cnt(f, ux, uy, 5) >= 1);
        lemma_nb_cnt_step_ge(f, ux, uy, 5, k);
    }
}

/// Counts are monotone in the number of cells looked at.
proof fn lemma_nb_cnt_step_ge(f: Texture, ux: int, uy: int, m: int, k: int)
    requires
        0 <= m <= k,
    ensures
        spec_nb_cnt(f, ux, uy, k) >= spec_nb_cnt(f, ux, uy, m),
    decreases k - m,
{
    if m < k {
        lemma_nb_cnt_step_ge(f, ux, uy, m, k - 1);
    }
}

/// Each partial channel sum stays within 255 times the partial count.
proof fn lemma_nb_sum_range(f: Texture, ux: int, uy: int, k: int, ch: int)
    requires
        0 <= k,
    ensures
        0 <= spec_nb_sum(f, ux, uy, k, ch) <= 255 * spec_nb_cnt(f, ux, uy, k),
    decreases k,
{
    if k > 0 {
        lemma_nb_sum_range(f, ux, uy, k - 1, ch);
        lemma_nb_cnt_range(f, ux, uy, k - 1);
    }
}

/// Box-filter supersampling: produces the half-resolution buffer whose pixel
/// (x, y) averages the in-bounds 3x3 neighborhood of (2x, 2y) in `frame`,
/// channel by channel, with full alpha.
pub fn ssaa(frame: &Texture) -> (r: Texture)
    requires
        frame.wf(),
    ensures
        r.wf(),
        r.width == frame.width / 2,
        r.height == frame.height / 2,
        forall|x: int, y: int|
            0 <= x < frame.width / 2 && 0 <= y < frame.height / 2 ==> {
                let c = #[trigger] r.color_at(x, y);
                &&& c.r == spec_ssaa_channel(*frame, x, y, 0)
                &&& c.g == spec_ssaa_channel(*frame, x, y, 1)
                &&& c.b == spec_ssaa_channel(*frame, x, y, 2)
                &&& c.a == 255
            },
{
    let w = frame.get_width();
    let h = frame.get_height();
    let nw = w / 2;
    let nh = h / 2;
    let buf_len = frame.data.len();
    proof {
        assert(buf_len == frame.data@.len());
        assert(w * h <= usize::MAX);
        assert(nw * nh <= w * h) by (nonlinear_arith)
            requires
                nw <= w,
                nh <= h,
                0 <= nw,
                0 <= nh,
                0 <= w,
                0 <= h,
        ;
    }
    let mut new_frame = Texture::new(nw, nh);
    let ghost nw_ = nw as int;
    let mut x: u32 = 0;
    while x < nw
        invariant
            x <= nw,
            nw == w / 2,
            nh == h / 2,
            frame.wf(),
            frame.width == w,
            frame.height == h,
            new_frame.wf(),
            new_frame.width == nw,
            new_frame.height == nh,
            nw_ == nw as int,
            forall|a: int, b: int|
                0 <= a < nw_ && 0 <= b < nh && (a < x || (a == x && b < 0)) ==> {
                    let c = #[trigger] new_frame.color_at(a, b);
                    &&& c.r == spec_ssaa_channel(*frame, a, b, 0)
                    &&& c.g == spec_ssaa_channel(*frame, a, b, 1)
                    &&& c.b == spec_ssaa_channel(*frame, a, b, 2)
                    &&& c.a == 255
                },
        decreases nw - x,
    {
        let mut y: u32 = 0;
        while y < nh
            invariant
                y <= nh,
                x < nw,
                nw == w / 2,
                nh == h / 2,
                frame.wf(),
                frame.width == w,
                frame.height == h,
                new_frame.wf(),
                new_frame.width == nw,
                new_frame.height == nh,
                nw_ == nw as int,
                forall|a: int, b: int|
                    0 <= a < nw_ && 0 <= b < nh && (a < x || (a == x && b < y)) ==> {
                        let c = #[trigger] new_frame.color_at(a, b);
                        &&& c.r == spec_ssaa_channel(*frame, a, b, 0)
                        &&& c.g == spec_ssaa_channel(*frame, a, b, 1)
                        &&& c.b == spec_ssaa_channel(*frame, a, b, 2)
                        &&& c.a == 255
                    },
            decreases nh - y,
        {
            let x_up: i64 = 2 * (x as i64);
            let y_up: i64 = 2 * (y as i64);
            let ghost ux = x_up as int;
            let ghost uy = y_up as int;
            let mut cnt: u32 = 0;
            let mut rs: u32 = 0;
            let mut gs: u32 = 0;
            let mut bs: u32 = 0;
            let mut k: u32 = 0;
            while k < 9
                invariant
                    k <= 9,
                    0 <= x_up <= 0x2_0000_0000,
                    0 <= y_up <= 0x2_0000_0000,
                    x_up == ux,
                    y_up == uy,
                    frame.wf(),
                    frame.width == w,
                    frame.height == h,
                    ux == 2 * (x as int),
                    uy == 2 * (y as int),
                    cnt == spec_nb_cnt(*frame, ux, uy, k as int),
                    rs == spec_nb_sum(*frame, ux, uy, k as int, 0),
                    gs == spec_nb_sum(*frame, ux, uy, k as int, 1),
                    bs == spec_nb_sum(*frame, ux, uy, k as int, 2),
                decreases 9 - k,
            {
                proof {
                    lemma_nb_cnt_range(*frame, ux, uy, k as int);
                    lemma_nb_sum_range(*frame, ux, uy, k as int, 0);
                    lemma_nb_sum_range(*frame, ux, uy, k as int, 1);
                    lemma_nb_sum_range(*frame, ux, uy, k as int, 2);
                }
                let nx: i64 = x_up + ((k / 3) as i64) - 1;
                let ny: i64 = y_up + ((k % 3) as i64) - 1;
                proof {
                    assert(nx == ux + spec_nb_dx(k as int));
                    assert(ny == uy + spec_nb_dy(k as int));
                }
                if nx >= 0 && nx < w as i64 && ny >= 0 && ny < h as i64 {
                    let c = match frame.get_color(nx as u32, ny as u32) {
                        Ok(c) => c,
                        Err(_) => TextureColor { r: 0, g: 0, b: 0, a: 0 },
                    };
                    proof {
                        assert(spec_nb_in(
                            *frame,
                            ux + spec_nb_dx(k as int),
                            uy + spec_nb_dy(k as int),
                        ));
                        assert(c == frame.data@[pos(
                            frame.width as int,
                            ux + spec_nb_dx(k as int),
                            uy + spec_nb_dy(k as int),
                        )]);
                    }
                    rs = rs + c.r as u32;
                    gs = gs + c.g as u32;
                    bs = bs + c.b as u32;
                    cnt = cnt + 1;
                } else {
                    proof {
                        assert(!spec_nb_in(*frame, ux + spec_nb_dx(k as int), uy + spec_nb_dy(k as int)));
                    }
                }
                k = k + 1;
            }
            proof {
                lemma_nb_cnt_center(*frame, ux, uy);
                lemma_nb_cnt_range(*frame, ux, uy, 9);
                lemma_nb_sum_range(*frame, ux, uy, 9, 0);
                lemma_nb_sum_range(*frame, ux, uy, 9, 1);
                lemma_nb_sum_range(*frame, ux, uy, 9, 2);
            }
            let rv = rs / cnt;
            let gv = gs / cnt;
            let bv = bs / cnt;
            let color = TextureColor {
                r: (if rv > 255 {
                    255
                } else {
                    rv
                }) as u8,
                g: (if gv > 255 {
                    255
                } else {
                    gv
                }) as u8,
                b: (if bv > 255 {
                    255
                } else {
                    bv
                }) as u8,
                a: 255,
            };
            let ghost before = new_frame;
            let res = new_frame.set_color(x, y, color);
            proof {
                lemma_pos_all_injective(nw_, nh as int);
                lemma_index_in_bounds(nw_, nh as int, x as int, y as int);
                assert(res is Ok);
                assert(new_frame.color_at(x as int, y as int) == color);
                assert forall|a: int, b: int|
                    0 <= a < nw_ && 0 <= b < nh && (a < x || (a == x && b < y)) implies #[trigger] new_frame.color_at(
                    a,
                    b,
                ) == before.color_at(a, b) by {
                    lemma_index_in_bounds(nw_, nh as int, a, b);
                    lemma_index_in_bounds(nw_, nh as int, x as int, y as int);
                }
            }
            y = y + 1;
        }
        x = x + 1;
    }
    new_frame
}

/// Supersampling a uniform buffer yields a uniform buffer of the same color:
/// every cell of every neighborhood holds the same color, so each average is
/// that color again.
pub proof fn lemma_ssaa_uniform(f: Texture, c: TextureColor)
    requires
        f.wf(),
        forall|p: int| 0 <= p < f.width * f.height ==> f.data@[p] == c,
    ensures
        forall|x: int, y: int, ch: int|
            0 <= x < f.width / 2 && 0 <= y < f.height / 2 ==> #[trigger] spec_ssaa_channel(
                f,
                x,
                y,
                ch,
            ) == spec_channel(c, ch),
{
    assert forall|x: int, y: int, ch: int|
        0 <= x < f.width / 2 && 0 <= y < f.height / 2 implies #[trigger] spec_ssaa_channel(
        f,
        x,
        y,
        ch,
    ) == spec_channel(c, ch) by {
        let ux = 2 * x;
        let uy = 2 * y;
        assert(spec_nb_in(f, ux, uy));
        lemma_nb_uniform(f, c, ux, uy, 9, ch);
        lemma_nb_cnt_center(f, ux, uy);
        lemma_nb_cnt_range(f, ux, uy, 9);
        let n = spec_nb_cnt(f, ux, uy, 9);
        let v = spec_channel(c, ch);
        lemma_div_multiples_vanish(v, n);
        assert(spec_nb_sum(f, ux, uy, 9, ch) / n == v) by {
            assert(spec_nb_sum(f, ux, uy, 9, ch) == n * v);
        }
        assert(0 <= v <= 255);
    }
}

/// Over a uniform buffer, each partial neighborhood sum is the partial count
/// times the uniform channel value.
proof fn lemma_nb_uniform(f: Texture, c: TextureColor, ux: int, uy: int, k: int, ch: int)
    requires
        f.wf(),
        0 <= k,
        forall|p: int| 0 <= p < f.width * f.height ==> f.data@[p] == c,
    ensures
        spec_nb_sum(f, ux, uy, k, ch) == spec_nb_cnt(f, ux, uy, k) * spec_channel(c, ch),
    decreases k,
{
    let v = spec_channel(c, ch);
    if k == 0 {
        assert(spec_nb_cnt(f, ux, uy, 0) * v == 0) by {
            vstd::arithmetic::mul::lemma_mul_basics_1(v);
        }
    } else {
        lemma_nb_uniform(f, c, ux, uy, k - 1, ch);
        let n0 = spec_nb_cnt(f, ux, uy, k - 1);
        let nx = ux + spec_nb_dx(k - 1);
        let ny = uy + spec_nb_dy(k - 1);
        if spec_nb_in(f, nx, ny) {
            lemma_index_in_bounds(f.width as int, f.height as int, nx, ny);
            assert(f.data@[pos(f.width as int, nx, ny)] == c);
            assert((n0 + 1) * v == n0 * v + 1 * v) by {
                lemma_mul_is_distributive_add_other_way(v, n0, 1);
            }
            assert(1 * v == v) by {
                vstd::arithmetic::mul::lemma_mul_basics_4(v);
            }
        } else {
            assert(spec_nb_cnt(f, ux, uy, k) == n0);
        }
    }
}

} // verus!
