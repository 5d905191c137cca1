use vstd::prelude::*;

use crate::texture::{Texture, TextureColor};
use crate::utils::{RenderError, read_n_bytes, spec_hflip, spec_vflip};

verus! {

/// The 18-byte header of the image file format, one field per byte or pair
/// of little-endian bytes.
#[derive(Debug, Clone, Copy, PartialEq, Eq, Structural)]
pub struct TgaHeader {
    pub image_id_length: u8,
    pub color_map_type: u8,
    pub image_type: u8,
    pub color_map_first_entry_index: u16,
    pub color_map_length: u16,
    pub color_map_entry_size: u8,
    pub x_origin: u16,
    pub y_origin: u16,
    pub image_width: u16,
    pub image_height: u16,
    pub pixel_depth: u8,
    pub image_descriptor: u8,
}

/// The low byte of a 16-bit value.
pub open spec fn spec_lo(x: u16) -> u8 {
    (x as int % 256) as u8
}

/// The high byte of a 16-bit value.
pub open spec fn spec_hi(x: u16) -> u8 {
    (x as int / 256) as u8
}

/// The byte serialization of a header: each field in order, 16-bit fields
/// little-endian.
pub open spec fn spec_header_bytes(h: TgaHeader) -> Seq<u8> {
    seq![
        h.image_id_length,
        h.color_map_type,
        h.image_type,
        spec_lo(h.color_map_first_entry_index),
        spec_hi(h.color_map_first_entry_index),
        spec_lo(h.color_map_length),
        spec_hi(h.color_map_length),
        h.color_map_entry_size,
        spec_lo(h.x_origin),
        spec_hi(h.x_origin),
        spec_lo(h.y_origin),
        spec_hi(h.y_origin),
        spec_lo(h.image_width),
        spec_hi(h.image_width),
        spec_lo(h.image_height),
        spec_hi(h.image_height),
        h.pixel_depth,
        h.image_descriptor,
    ]
}

/// The 16-bit value stored little-endian at `pos`.
pub open spec fn spec_u16_at(bytes: Seq<u8>, pos: int) -> u16 {
    (bytes[pos] + 256 * bytes[pos + 1]) as u16
}

/// The header read from the first 18 bytes of a byte stream.
pub open spec fn spec_parse_header(bytes: Seq<u8>) -> TgaHeader {
    TgaHeader {
        image_id_length: bytes[0],
        color_map_type: bytes[1],
        image_type: bytes[2],
        color_map_first_entry_index: spec_u16_at(bytes, 3),
        color_map_length: spec_u16_at(bytes, 5),
        color_map_entry_size: bytes[7],
        x_origin: spec_u16_at(bytes, 8),
        y_origin: spec_u16_at(bytes, 10),
        image_width: spec_u16_at(bytes, 12),
        image_height: spec_u16_at(bytes, 14),
        pixel_depth: bytes[16],
        image_descriptor: bytes[17],
    }
}

/// Parsing inverts serialization: a header written and read back is itself.
pub proof fn lemma_header_round_trip(h: TgaHeader)
    ensures
        spec_parse_header(spec_header_bytes(h)) == h,
{
    lemma_u16_bytes(h.color_map_first_entry_index);
    lemma_u16_bytes(h.color_map_length);
    lemma_u16_bytes(h.x_origin);
    lemma_u16_bytes(h.y_origin);
    lemma_u16_bytes(h.image_width);
    lemma_u16_bytes(h.image_height);
}

/// A 16-bit value is recovered from its low and high bytes.
pub proof fn lemma_u16_bytes(x: u16)
    ensures
        spec_lo(x) + 256 * spec_hi(x) == x,
{
    vstd::arithmetic::div_mod::lemma_fundamental_div_mod(x as int, 256);
}

/// Serializes a header to its 18 bytes.
pub fn header_to_bytes(h: &TgaHeader) -> (r: Vec<u8>)
    ensures
        r@ == spec_header_bytes(*h),
{
    let mut out: Vec<u8> = Vec::new();
    out.push(h.image_id_length);
    out.push(h.color_map_type);
    out.push(h.image_type);
    out.push((h.color_map_first_entry_index % 256) as u8);
    out.push((h.color_map_first_entry_index / 256) as u8);
    out.push((h.color_map_length % 256) as u8);
    out.push((h.color_map_length / 256) as u8);
    out.push(h.color_map_entry_size);
    out.push((h.x_origin % 256) as u8);
    out.push((h.x_origin / 256) as u8);
    out.push((h.y_origin % 256) as u8);
    out.push((h.y_origin / 256) as u8);
    out.push((h.image_width % 256) as u8);
    out.push((h.image_width / 256) as u8);
    out.push((h.image_height % 256) as u8);
    out.push((h.image_height / 256) as u8);
    out.push(h.pixel_depth);
    out.push(h.image_descriptor);
    proof {
        assert(out@ =~= spec_header_bytes(*h));
    }
    out
}

/// Reads a header from the first 18 bytes of a byte stream.
pub fn parse_header(data: &Vec<u8>) -> (r: Result<TgaHeader, RenderError>)
    ensures
        match r {
            Ok(h) => data@.len() >= 18 && h == spec_parse_header(data@),
            Err(e) => e == RenderError::ReadError && data@.len() < 18,
        },
{
    if data.len() < 18 {
        return Err(RenderError::ReadError);
    }
    Ok(
        TgaHeader {
            image_id_length: data[0],
            color_map_type: data[1],
            image_type: data[2],
            color_map_first_entry_index: data[3] as u16 + 256 * (data[4] as u16),
            color_map_length: data[5] as u16 + 256 * (data[6] as u16),
            color_map_entry_size: data[7],
            x_origin: data[8] as u16 + 256 * (data[9] as u16),
            y_origin: data[10] as u16 + 256 * (data[11] as u16),
            image_width: data[12] as u16 + 256 * (data[13] as u16),
            image_height: data[14] as u16 + 256 * (data[15] as u16),
            pixel_depth: data[16],
            image_descriptor: data[17],
        },
    )
}

/// The color of pixel `p` in a raw (uncompressed) pixel array of the given
/// depth: channels are stored blue, green, red, then alpha when present; an
/// 8-bit sample fills all three channels.
pub open spec fn spec_raw_color(raw: Seq<u8>, depth: int, p: int) -> TextureColor {
    if depth == 8 {
        TextureColor { r: raw[p], g: raw[p], b: raw[p], a: 255 }
    } else if depth == 24 {
        TextureColor { r: raw[3 * p + 2], g: raw[3 * p + 1], b: raw[3 * p], a: 255 }
    } else {
        TextureColor { r: raw[4 * p + 2], g: raw[4 * p + 1], b: raw[4 * p], a: raw[4 * p + 3] }
    }
}

/// All `n` pixels of a raw pixel array.
pub open spec fn spec_raw_pixels(raw: Seq<u8>, depth: int, n: int) -> Seq<TextureColor> {
    Seq::new(n as nat, |p: int| spec_raw_color(raw, depth, p))
}

/// Byte offsets within a pixel array stay in bounds.
proof fn lemma_pixel_offset(p: int, total: int, s: int) by (nonlinear_arith)
    requires
        0 <= p < total,
        0 < s,
    ensures
        0 <= p * s,
        p * s + s <= total * s,
{
}

/// Fills the texture's pixels from a raw (uncompressed) pixel array.
pub fn set_image_data(texture: &mut Texture, raw_data: &Vec<u8>, pixel_depth: u8)
    requires
        old(texture).wf(),
        pixel_depth == 8 || pixel_depth == 24 || pixel_depth == 32,
        raw_data@.len() == old(texture).width * old(texture).height * (pixel_depth / 8),
    ensures
        final (texture).wf(),
        final (texture).width == old(texture).width,
        final (texture).height == old(texture).height,
        final (texture).data@ == spec_raw_pixels(
            raw_data@,
            pixel_depth as int,
            old(texture).width * old(texture).height,
        ),
{
    let ghost total_ = old(texture).width * old(texture).height;
    let w = texture.width;
    let h = texture.height;
    let total = texture.data.len();
    proof {
        assert(total == total_);
    }
    let s: usize = (pixel_depth / 8) as usize;
    let raw_len = raw_data.len();
    let mut p: usize = 0;
    while p < total
        invariant
            p <= total,
            total == total_,
            s == pixel_depth / 8,
            pixel_depth == 8 || pixel_depth == 24 || pixel_depth == 32,
            raw_len == raw_data@.len(),
            raw_data@.len() == total_ * s,
            texture.wf(),
            texture.width == w,
            texture.height == h,
            texture.data@.len() == total,
            forall|q: int|
                0 <= q < p ==> #[trigger] texture.data@[q] == spec_raw_color(
                    raw_data@,
                    pixel_depth as int,
                    q,
                ),
        decreases total - p,
    {
        proof {
            lemma_pixel_offset(p as int, total_ as int, s as int);
            if pixel_depth == 8 {
                assert(total_ * s == total_ * 1);
                assert(p * s == p * 1);
            } else if pixel_depth == 24 {
                assert(total_ * s == total_ * 3);
                assert(p * s == p * 3);
            } else {
                assert(total_ * s == total_ * 4);
                assert(p * s == p * 4);
            }
        }
        let color = if pixel_depth == 8 {
            TextureColor { r: raw_data[p], g: raw_data[p], b: raw_data[p], a: 255 }
        } else if pixel_depth == 24 {
            let base = p * 3;
            TextureColor { r: raw_data[base + 2], g: raw_data[base + 1], b: raw_data[base], a: 255 }
        } else {
            let base = p * 4;
            TextureColor {
                r: raw_data[base + 2],
                g: raw_data[base + 1],
                b: raw_data[base],
                a: raw_data[base + 3],
            }
        };
        texture.data.set(p, color);
        p = p + 1;
    }
    proof {
        assert(texture.data@ =~= spec_raw_pixels(raw_data@, pixel_depth as int, total_ as int));
    }
}

/// Serializes the texture's pixels as a raw (uncompressed) pixel array of
/// depth 24 or 32, forcing alpha opaque when `ignore_alpha` is set.
pub fn get_image_data(texture: &Texture, pixel_depth: u8, ignore_alpha: bool) -> (r: Vec<u8>)
    requires
        texture.wf(),
        pixel_depth == 24 || pixel_depth == 32,
        texture.width * texture.height * (pixel_depth / 8) <= usize::MAX,
    ensures
        r@.len() == texture.width * texture.height * (pixel_depth / 8),
        spec_raw_pixels(r@, pixel_depth as int, texture.width * texture.height)
            =~= spec_alpha_forced(
            texture.data@,
            pixel_depth == 24 || ignore_alpha,
        ),
{
    let ghost total_ = texture.width * texture.height;
    let total = texture.data.len();
    let s: usize = (pixel_depth / 8) as usize;
    let mut out: Vec<u8> = Vec::new();
    let mut p: usize = 0;
    while p < total
        invariant
            p <= total,
            total == total_,
            s == pixel_depth / 8,
            pixel_depth == 24 || pixel_depth == 32,
            total_ * s <= usize::MAX,
            texture.wf(),
            texture.data@.len() == total,
            out@.len() == p * s,
            forall|q: int|
                0 <= q < p ==> #[trigger] spec_raw_color(out@, pixel_depth as int, q) == (
                TextureColor {
                    r: texture.data@[q].r,
                    g: texture.data@[q].g,
                    b: texture.data@[q].b,
                    a: if pixel_depth == 24 || ignore_alpha {
                        255
                    } else {
                        texture.data@[q].a
                    },
                }),
        decreases total - p,
    {
        proof {
            lemma_pixel_offset(p as int, total_ as int, s as int);
            if pixel_depth == 24 {
                assert(total_ * s == total_ * 3);
                assert(p * s == p * 3);
            } else {
                assert(total_ * s == total_ * 4);
                assert(p * s == p * 4);
            }
        }
        let ghost before = out@;
        let c = texture.data[p];
        out.push(c.b);
        out.push(c.g);
        out.push(c.r);
        if pixel_depth == 32 {
            if ignore_alpha {
                out.push(255);
            } else {
                out.push(c.a);
            }
        }
        proof {
            assert(out@.len() == p * s + s) by {
                assert(before.len() == p * s);
            }
            assert((p + 1) * s == p * s + s) by (nonlinear_arith);
            assert forall|q: int| 0 <= q < p + 1 implies #[trigger] spec_raw_color(
                out@,
                pixel_depth as int,
                q,
            ) == (TextureColor {
                r: texture.data@[q].r,
                g: texture.data@[q].g,
                b: texture.data@[q].b,
                a: if pixel_depth == 24 || ignore_alpha {
                    255
                } else {
                    texture.data@[q].a
                },
            }) by {
                lemma_pixel_offset(q, total_ as int, s as int);
                if q < p {
                    assert(q * s + s <= p * s) by (nonlinear_arith)
                        requires
                            0 <= q < p,
                            0 < s,
                    ;
                    assert(spec_raw_color(before, pixel_depth as int, q) == spec_raw_color(
                        out@,
                        pixel_depth as int,
                        q,
                    ));
                } else {
                    assert(q * s == p * s);
                }
            }
        }
        p = p + 1;
    }
    proof {
        assert(spec_raw_pixels(out@, pixel_depth as int, total_ as int) =~= spec_alpha_forced(
            texture.data@,
            pixel_depth == 24 || ignore_alpha,
        ));
    }
    out
}

/// The same pixels with alpha forced to fully opaque when `forced` is set.
pub open spec fn spec_alpha_forced(pixels: Seq<TextureColor>, forced: bool) -> Seq<TextureColor> {
    Seq::new(
        pixels.len(),
        |p: int|
            TextureColor {
                r: pixels[p].r,
                g: pixels[p].g,
                b: pixels[p].b,
                a: if forced {
                    255
                } else {
                    pixels[p].a
                },
            },
    )
}

/// The single pixel value stored at `pos` in a run-length packet body.
pub open spec fn spec_rle_pixel(bytes: Seq<u8>, pos: int, depth: int) -> TextureColor {
    if depth == 8 {
        TextureColor { r: bytes[pos], g: bytes[pos], b: bytes[pos], a: 255 }
    } else if depth == 24 {
        TextureColor { r: bytes[pos + 2], g: bytes[pos + 1], b: bytes[pos], a: 255 }
    } else {
        TextureColor { r: bytes[pos + 2], g: bytes[pos + 1], b: bytes[pos], a: bytes[pos + 3] }
    }
}

/// The pixels of a literal (raw) run-length packet: `count` pixel values in
/// a row starting at `pos`, of which at most `remaining` may still be
/// produced.  Fails with `WrongPixelNumbers` when the packet holds more
/// pixels than remain, and with `ReadError` when the bytes run out first.
pub open spec fn spec_rle_literal(
    bytes: Seq<u8>,
    pos: int,
    count: int,
    remaining: int,
    depth: int,
) -> Result<Seq<TextureColor>, RenderError>
    decreases count,
{
    let s = depth / 8;
    if count <= 0 {
        Ok(Seq::empty())
    } else if remaining <= 0 {
        Err(RenderError::WrongPixelNumbers)
    } else if pos + s > bytes.len() {
        Err(RenderError::ReadError)
    } else {
        match spec_rle_literal(bytes, pos + s, count - 1, remaining - 1, depth) {
            Ok(rest) => Ok(seq![spec_rle_pixel(bytes, pos, depth)] + rest),
            Err(e) => Err(e),
        }
    }
}

/// The result of run-length decoding exactly `remaining` pixels from
/// `bytes` starting at `pos`: the pixels and the position just after the
/// last packet read.  Mirrors the decoder: a packet byte with the high bit
/// set repeats one following pixel value, any other packet byte is followed
/// by that many plus one literal pixel values, and decoding fails when a
/// packet would produce more pixels than remain or the bytes run out.
pub open spec fn spec_rle(bytes: Seq<u8>, pos: int, remaining: int, depth: int) -> Result<
    (Seq<TextureColor>, int),
    RenderError,
>
    decreases remaining,
{
    let s = depth / 8;
    if pos < 0 || pos >= bytes.len() {
        Err(RenderError::ReadError)
    } else {
        let b = bytes[pos] as int;
        if b >= 128 {
            let count = b - 127;
            if pos + 1 + s > bytes.len() {
                Err(RenderError::ReadError)
            } else if count > remaining {
                Err(RenderError::WrongPixelNumbers)
            } else {
                let pix = Seq::new(count as nat, |i: int| spec_rle_pixel(bytes, pos + 1, depth));
                if remaining - count <= 0 {
                    Ok((pix, pos + 1 + s))
                } else {
                    match spec_rle(bytes, pos + 1 + s, remaining - count, depth) {
                        Ok((rest, end)) => Ok((pix + rest, end)),
                        Err(e) => Err(e),
                    }
                }
            }
        } else {
            let count = b + 1;
            match spec_rle_literal(bytes, pos + 1, count, remaining, depth) {
                Ok(pix) => {
                    let newpos = pos + 1 + count * s;
                    if remaining - count <= 0 {
                        Ok((pix, newpos))
                    } else {
                        match spec_rle(bytes, newpos, remaining - count, depth) {
                            Ok((rest, end)) => Ok((pix + rest, end)),
                            Err(e) => Err(e),
                        }
                    }
                },
                Err(e) => Err(e),
            }
        }
    }
}

/// A successful literal packet yields exactly `count` pixels.
proof fn lemma_rle_literal_len(bytes: Seq<u8>, pos: int, count: int, remaining: int, depth: int)
    requires
        spec_rle_literal(bytes, pos, count, remaining, depth) is Ok,
    ensures
        spec_rle_literal(bytes, pos, count, remaining, depth)->Ok_0.len() == if count <= 0 {
            0
        } else {
            count
        },
        count <= remaining || count <= 0,
    decreases count,
{
    if count > 0 {
        lemma_rle_literal_len(bytes, pos + depth / 8, count - 1, remaining - 1, depth);
    }
}

/// A successful decode yields exactly `remaining` pixels.
pub proof fn lemma_rle_len(bytes: Seq<u8>, pos: int, remaining: int, depth: int)
    requires
        spec_rle(bytes, pos, remaining, depth) is Ok,
    ensures
        spec_rle(bytes, pos, remaining, depth)->Ok_0.0.len() == if remaining <= 0 {
            0
        } else {
            remaining
        },
    decreases remaining,
{
    let s = depth / 8;
    if 0 <= pos < bytes.len() {
        let b = bytes[pos] as int;
        if b >= 128 {
            let count = b - 127;
            if remaining - count > 0 {
                lemma_rle_len(bytes, pos + 1 + s, remaining - count, depth);
            }
        } else {
            let count = b + 1;
            lemma_rle_literal_len(bytes, pos + 1, count, remaining, depth);
            if remaining - count > 0 {
                lemma_rle_len(bytes, pos + 1 + count * s, remaining - count, depth);
            }
        }
    }
}

/// Run-length decodes the texture's pixels from `data` starting at `start`.
/// On success the texture holds exactly the decoded pixels; on failure its
/// size is unchanged and the error is the one the byte stream forces.
#[verifier::rlimit(80)]
pub fn rle_decode(texture: &mut Texture, data: &Vec<u8>, start: usize, pixel_depth: u8) -> (r:
    Result<(), RenderError>)
    requires
        old(texture).wf(),
        pixel_depth == 8 || pixel_depth == 24 || pixel_depth == 32,
    ensures
        final (texture).wf(),
        final (texture).width == old(texture).width,
        final (texture).height == old(texture).height,
        match r {
            Ok(()) => {
                &&& spec_rle(
                    data@,
                    start as int,
                    old(texture).width * old(texture).height,
                    pixel_depth as int,
                ) is Ok
                &&& final (texture).data@ == spec_rle(
                    data@,
                    start as int,
                    old(texture).width * old(texture).height,
                    pixel_depth as int,
                )->Ok_0.0
            },
            Err(e) => spec_rle(
                data@,
                start as int,
                old(texture).width * old(texture).height,
                pixel_depth as int,
            ) == Err::<(Seq<TextureColor>, int), RenderError>(e),
        },
{
    let ghost total_ = old(texture).width * old(texture).height;
    let ghost bytes = data@;
    let ghost depth_ = pixel_depth as int;
    let ghost whole = spec_rle(data@, start as int, total_ as int, pixel_depth as int);
    let w = texture.width;
    let h = texture.height;
    let total = texture.data.len();
    let len = data.len();
    let s: usize = (pixel_depth / 8) as usize;
    let mut current: usize = 0;
    let mut pos: usize = start;
    proof {
        if whole is Ok {
            assert(texture.data@.subrange(0, 0) + whole->Ok_0.0 =~= whole->Ok_0.0);
        }
    }
    loop
        invariant
            current <= total,
            total == total_,
            total_ == old(texture).width * old(texture).height,
            w == old(texture).width,
            h == old(texture).height,
            s == pixel_depth / 8,
            pixel_depth == 8 || pixel_depth == 24 || pixel_depth == 32,
            depth_ == pixel_depth as int,
            bytes == data@,
            len == data@.len(),
            whole == spec_rle(bytes, start as int, total_ as int, depth_),
            texture.wf(),
            texture.width == w,
            texture.height == h,
            texture.data@.len() == total,
            ({
                let tail = spec_rle(bytes, pos as int, total_ - current, depth_);
                match tail {
                    Ok((rest, end)) => whole == Ok::<_, RenderError>(
                        (texture.data@.subrange(0, current as int) + rest, end),
                    ),
                    Err(e) => whole == Err::<(Seq<TextureColor>, int), RenderError>(e),
                }
            }),
        decreases total - current,
    {
        let ghost rem = total_ - current;
        let ghost tpix = texture.data@;
        if pos >= len {
            return Err(RenderError::ReadError);
        }
        let packet = data[pos];
        let ghost packet_pos = pos as int;
        pos = pos + 1;
        let count: usize;
        let ghost run: Seq<TextureColor>;
        if packet >= 128 {
            count = (packet - 127) as usize;
            if len < s || pos > len - s {
                return Err(RenderError::ReadError);
            }
            let color = if pixel_depth == 8 {
                TextureColor { r: data[pos], g: data[pos], b: data[pos], a: 255 }
            } else if pixel_depth == 24 {
                TextureColor { r: data[pos + 2], g: data[pos + 1], b: data[pos], a: 255 }
            } else {
                TextureColor { r: data[pos + 2], g: data[pos + 1], b: data[pos], a: data[pos + 3] }
            };
            proof {
                assert(color == spec_rle_pixel(bytes, packet_pos + 1, depth_));
            }
            pos = pos + s;
            if count > total - current {
                return Err(RenderError::WrongPixelNumbers);
            }
            proof {
                run = Seq::new(
                    count as nat,
                    |i: int| spec_rle_pixel(bytes, packet_pos + 1, depth_),
                );
            }
            let mut i: usize = 0;
            while i < count
                invariant
                    i <= count,
                    current + count <= total,
                    texture.wf(),
                    texture.width == w,
                    texture.height == h,
                    texture.data@.len() == total,
                    texture.data@.subrange(0, current as int) == tpix.subrange(0, current as int),
                    forall|q: int|
                        current <= q < current + i ==> #[trigger] texture.data@[q] == color,
                decreases count - i,
            {
                let ghost before = texture.data@;
                texture.data.set(current + i, color);
                proof {
                    assert(texture.data@.subrange(0, current as int) =~= before.subrange(
                        0,
                        current as int,
                    ));
                }
                i = i + 1;
            }
            proof {
                assert(texture.data@.subrange(0, current as int + count) =~= tpix.subrange(
                    0,
                    current as int,
                ) + run);
            }
            current = current + count;
        } else {
            count = (packet + 1) as usize;
            let ghost lit_start = pos as int;
            let mut i: usize = 0;
            let mut failed: Option<RenderError> = None;
            proof {
                let pkt = spec_rle_literal(bytes, lit_start, count as int, rem, depth_);
                if pkt is Ok {
                    assert(texture.data@.subrange(current as int, current as int) + pkt->Ok_0
                        =~= pkt->Ok_0);
                }
            }
            while i < count
                invariant_except_break
                    i <= count,
                    failed is None,
                    count >= 1,
                    rem == total_ - current,
                    current <= total,
                    current + i <= total,
                    total == total_,
                    s == pixel_depth / 8,
                    pixel_depth == 8 || pixel_depth == 24 || pixel_depth == 32,
                    depth_ == pixel_depth as int,
                    bytes == data@,
                    len == data@.len(),
                    lit_start + i * s == pos as int,
                    texture.wf(),
                    texture.width == w,
                    texture.height == h,
                    texture.data@.len() == total,
                    texture.data@.subrange(0, current as int) == tpix.subrange(0, current as int),
                    ({
                        let pkt = spec_rle_literal(bytes, lit_start, count as int, rem, depth_);
                        let here = spec_rle_literal(
                            bytes,
                            pos as int,
                            count - i,
                            rem - i,
                            depth_,
                        );
                        match here {
                            Ok(rest) => pkt == Ok::<_, RenderError>(
                                texture.data@.subrange(current as int, current + i as int) + rest,
                            ),
                            Err(e) => pkt == Err::<Seq<TextureColor>, RenderError>(e),
                        }
                    }),
                ensures
                    texture.wf(),
                    texture.width == w,
                    texture.height == h,
                    texture.data@.len() == total,
                    texture.data@.subrange(0, current as int) == tpix.subrange(0, current as int),
                    failed is Some ==> spec_rle_literal(bytes, lit_start, count as int, rem, depth_)
                        == Err::<Seq<TextureColor>, RenderError>(failed->0),
                    failed is None ==> i == count && current + count <= total && lit_start + count
                        * s == pos as int && spec_rle_literal(
                        bytes,
                        lit_start,
                        count as int,
                        rem,
                        depth_,
                    ) == Ok::<_, RenderError>(
                        texture.data@.subrange(current as int, current + count as int),
                    ),
                decreases count - i,
            {
                if current + i >= total {
                    failed = Some(RenderError::WrongPixelNumbers);
                    break ;
                }
                if len < s || pos > len - s {
                    failed = Some(RenderError::ReadError);
                    break ;
                }
                let color = if pixel_depth == 8 {
                    TextureColor { r: data[pos], g: data[pos], b: data[pos], a: 255 }
                } else if pixel_depth == 24 {
                    TextureColor { r: data[pos + 2], g: data[pos + 1], b: data[pos], a: 255 }
                } else {
                    TextureColor {
                        r: data[pos + 2],
                        g: data[pos + 1],
                        b: data[pos],
                        a: data[pos + 3],
                    }
                };
                proof {
                    assert(color == spec_rle_pixel(bytes, pos as int, depth_));
                }
                let ghost before = texture.data@;
                let ghost here_entry = spec_rle_literal(
                    bytes,
                    pos as int,
                    count - i,
                    rem - i,
                    depth_,
                );
                texture.data.set(current + i, color);
                proof {
                    assert(texture.data@.subrange(0, current as int) =~= before.subrange(
                        0,
                        current as int,
                    ));
                    assert(texture.data@.subrange(current as int, current + i + 1) =~= before
                        .subrange(current as int, current + i as int) + seq![color]);
                    assert((i + 1) * s == i * s + s) by (nonlinear_arith);
                }
                pos = pos + s;
                i = i + 1;
                proof {
                    let here_next = spec_rle_literal(
                        bytes,
                        pos as int,
                        count - i,
                        rem - i,
                        depth_,
                    );
                    if here_next is Ok {
                        let rest2 = here_next->Ok_0;
                        assert(here_entry == Ok::<_, RenderError>(seq![color] + rest2));
                        let bsub = before.subrange(current as int, current + i - 1);
                        assert((bsub + seq![color]) + rest2 =~= bsub + (seq![color] + rest2));
                        assert(texture.data@.subrange(current as int, current + i as int) == bsub
                            + seq![color]);
                    } else {
                        assert(here_entry == Err::<Seq<TextureColor>, RenderError>(
                            here_next->Err_0,
                        ));
                    }
                }
            }
            if let Some(e) = failed {
                return Err(e);
            }
            proof {
                run = spec_rle_literal(bytes, lit_start, count as int, rem, depth_)->Ok_0;
            }
            current = current + count;
        }
        proof {
            let tail2 = spec_rle(bytes, pos as int, total_ - current, depth_);
            let prefix2 = texture.data@.subrange(0, current as int);
            assert(prefix2 =~= tpix.subrange(0, (current - count) as int) + run);
            if rem - count > 0 {
                if tail2 is Ok {
                    let rest2 = tail2->Ok_0.0;
                    let end2 = tail2->Ok_0.1;
                    assert(spec_rle(bytes, packet_pos, rem, depth_) == Ok::<_, RenderError>(
                        (run + rest2, end2),
                    ));
                    assert(tpix.subrange(0, (current - count) as int) + (run + rest2) =~= prefix2
                        + rest2);
                } else {
                    assert(spec_rle(bytes, packet_pos, rem, depth_) == Err::<
                        (Seq<TextureColor>, int),
                        RenderError,
                    >(tail2->Err_0));
                }
            } else {
                assert(spec_rle(bytes, packet_pos, rem, depth_) == Ok::<_, RenderError>(
                    (run, pos as int),
                ));
            }
        }
        if current >= total {
            proof {
                assert(texture.data@.subrange(0, current as int) =~= texture.data@);
            }
            return Ok(());
        }
    }
}


/// A successful literal packet consumed exactly `count` pixel values of
/// bytes.
proof fn lemma_rle_literal_end(bytes: Seq<u8>, pos: int, count: int, remaining: int, depth: int)
    requires
        spec_rle_literal(bytes, pos, count, remaining, depth) is Ok,
        0 <= pos,
        0 <= count,
        depth == 8 || depth == 24 || depth == 32,
    ensures
        count == 0 || pos + count * (depth / 8) <= bytes.len(),
    decreases count,
{
    let s = depth / 8;
    if count > 0 {
        lemma_rle_literal_end(bytes, pos + s, count - 1, remaining - 1, depth);
        assert(count * s == (count - 1) * s + s) by (nonlinear_arith);
        assert(1 * s == s) by (nonlinear_arith);
    } else {
        assert(count * s == 0) by (nonlinear_arith)
            requires
                count == 0,
        ;
    }
}

/// A successful decode reads forward: it ends past where it began and
/// within the bytes.
proof fn lemma_rle_end(bytes: Seq<u8>, pos: int, remaining: int, depth: int)
    requires
        spec_rle(bytes, pos, remaining, depth) is Ok,
        0 <= pos,
        depth == 8 || depth == 24 || depth == 32,
    ensures
        pos < spec_rle(bytes, pos, remaining, depth)->Ok_0.1 <= bytes.len(),
    decreases remaining,
{
    let s = depth / 8;
    let b = bytes[pos] as int;
    if b >= 128 {
        let count = b - 127;
        if remaining - count > 0 {
            lemma_rle_end(bytes, pos + 1 + s, remaining - count, depth);
        }
    } else {
        let count = b + 1;
        lemma_rle_literal_end(bytes, pos + 1, count, remaining, depth);
        if remaining - count > 0 {
            lemma_rle_end(bytes, pos + 1 + count * s, remaining - count, depth);
        } else {
            assert(count * s >= 0) by (nonlinear_arith)
                requires
                    count >= 0,
                    s >= 0,
            ;
        }
    }
}

/// A literal packet decodes the same from any byte stream that carries the
/// same packet bytes at its position, with at least as many pixels left.
proof fn lemma_rle_literal_frame(
    b1: Seq<u8>,
    b2: Seq<u8>,
    pos1: int,
    pos2: int,
    count: int,
    rem1: int,
    rem2: int,
    depth: int,
)
    requires
        spec_rle_literal(b1, pos1, count, rem1, depth) is Ok,
        0 <= pos1,
        0 <= pos2,
        0 <= count,
        depth == 8 || depth == 24 || depth == 32,
        rem2 >= count,
        pos2 + count * (depth / 8) <= b2.len(),
        forall|j: int|
            0 <= j < count * (depth / 8) ==> #[trigger] b2[pos2 + j] == b1[pos1 + j],
    ensures
        spec_rle_literal(b2, pos2, count, rem2, depth) == spec_rle_literal(
            b1,
            pos1,
            count,
            rem1,
            depth,
        ),
    decreases count,
{
    let s = depth / 8;
    if count > 0 {
        lemma_rle_literal_len(b1, pos1, count, rem1, depth);
        assert(count * s == (count - 1) * s + s) by (nonlinear_arith);
        assert forall|j: int| 0 <= j < (count - 1) * s implies #[trigger] b2[pos2 + s + j] == b1[
            pos1 + s + j] by {
            assert(b2[pos2 + (j + s)] == b1[pos1 + (j + s)]);
        }
        lemma_rle_literal_frame(b1, b2, pos1 + s, pos2 + s, count - 1, rem1 - 1, rem2 - 1, depth);
        assert(b2[pos2 + 0] == b1[pos1 + 0]);
        if s >= 3 {
            assert(b2[pos2 + 1] == b1[pos1 + 1]);
            assert(b2[pos2 + 2] == b1[pos1 + 2]);
        }
        if s >= 4 {
            assert(b2[pos2 + 3] == b1[pos1 + 3]);
        }
        assert(spec_rle_pixel(b2, pos2, depth) == spec_rle_pixel(b1, pos1, depth));
    } else {
        assert(count * s == 0) by (nonlinear_arith)
            requires
                count == 0,
        ;
    }
}

/// A successful decode reads the same pixels from any byte stream that
/// carries the same bytes at its position.
proof fn lemma_rle_frame(
    b1: Seq<u8>,
    b2: Seq<u8>,
    pos1: int,
    pos2: int,
    remaining: int,
    depth: int,
)
    requires
        spec_rle(b1, pos1, remaining, depth) is Ok,
        0 <= pos1,
        0 <= pos2,
        depth == 8 || depth == 24 || depth == 32,
        pos2 + (spec_rle(b1, pos1, remaining, depth)->Ok_0.1 - pos1) <= b2.len(),
        forall|j: int|
            0 <= j < spec_rle(b1, pos1, remaining, depth)->Ok_0.1 - pos1 ==> #[trigger] b2[pos2
                + j] == b1[pos1 + j],
    ensures
        spec_rle(b2, pos2, remaining, depth) == Ok::<(Seq<TextureColor>, int), RenderError>(
            (
                spec_rle(b1, pos1, remaining, depth)->Ok_0.0,
                pos2 + (spec_rle(b1, pos1, remaining, depth)->Ok_0.1 - pos1),
            ),
        ),
    decreases remaining,
{
    let s = depth / 8;
    let end1 = spec_rle(b1, pos1, remaining, depth)->Ok_0.1;
    lemma_rle_end(b1, pos1, remaining, depth);
    let b = b1[pos1] as int;
    assert(b2[pos2 + 0] == b1[pos1 + 0]);
    if b >= 128 {
        let count = b - 127;
        if remaining - count > 0 {
            lemma_rle_end(b1, pos1 + 1 + s, remaining - count, depth);
        }
        assert(b2[pos2 + 1] == b1[pos1 + 1]);
        if s >= 3 {
            assert(b2[pos2 + 2] == b1[pos1 + 2]);
            assert(b2[pos2 + 3] == b1[pos1 + 3]);
        }
        if s >= 4 {
            assert(b2[pos2 + 4] == b1[pos1 + 4]);
        }
        assert(spec_rle_pixel(b2, pos2 + 1, depth) == spec_rle_pixel(b1, pos1 + 1, depth));
        assert(Seq::new(count as nat, |i: int| spec_rle_pixel(b2, pos2 + 1, depth)) =~= Seq::new(
            count as nat,
            |i: int| spec_rle_pixel(b1, pos1 + 1, depth),
        ));
        if remaining - count > 0 {
            assert forall|j: int| 0 <= j < end1 - (pos1 + 1 + s) implies #[trigger] b2[pos2 + 1
                + s + j] == b1[pos1 + 1 + s + j] by {
                assert(b2[pos2 + (1 + s + j)] == b1[pos1 + (1 + s + j)]);
            }
            lemma_rle_frame(b1, b2, pos1 + 1 + s, pos2 + 1 + s, remaining - count, depth);
        }
    } else {
        let count = b + 1;
        let lit1 = spec_rle_literal(b1, pos1 + 1, count, remaining, depth);
        lemma_rle_literal_end(b1, pos1 + 1, count, remaining, depth);
        lemma_rle_literal_len(b1, pos1 + 1, count, remaining, depth);
        if remaining - count > 0 {
            lemma_rle_end(b1, pos1 + 1 + count * s, remaining - count, depth);
        }
        assert forall|j: int| 0 <= j < count * s implies #[trigger] b2[pos2 + 1 + j] == b1[pos1 + 1 + j] by {
            assert(b2[pos2 + (1 + j)] == b1[pos1 + (1 + j)]);
        }
        lemma_rle_literal_frame(
            b1,
            b2,
            pos1 + 1,
            pos2 + 1,
            count,
            remaining,
            remaining,
            depth,
        );
        if remaining - count > 0 {
            assert forall|j: int| 0 <= j < end1 - (pos1 + 1 + count * s) implies #[trigger] b2[
                pos2 + 1 + count * s + j] == b1[pos1 + 1 + count * s + j] by {
                assert(b2[pos2 + (1 + count * s + j)] == b1[pos1 + (1 + count * s + j)]);
            }
            lemma_rle_frame(
                b1,
                b2,
                pos1 + 1 + count * s,
                pos2 + 1 + count * s,
                remaining - count,
                depth,
            );
        }
    }
}

/// Run-length encodes the texture's pixels from pixel `p` on, as repeat
/// packets over maximal runs of equal pixels (at most 128 per packet).
/// Decoding the result yields exactly those pixels, alpha forced opaque
/// when the depth drops it or `ignore_alpha` is set.
pub fn rle_encode_from(texture: &Texture, p: usize, pixel_depth: u8, ignore_alpha: bool) -> (r:
    Vec<u8>)
    requires
        texture.wf(),
        pixel_depth == 24 || pixel_depth == 32,
        p < texture.data@.len(),
    ensures
        spec_rle(r@, 0, texture.data@.len() - p, pixel_depth as int) == Ok::<
            (Seq<TextureColor>, int),
            RenderError,
        >(
            (
                spec_alpha_forced(texture.data@, pixel_depth == 24 || ignore_alpha).subrange(
                    p as int,
                    texture.data@.len() as int,
                ),
                r@.len() as int,
            ),
        ),
    decreases texture.data@.len() - p,
{
    let ghost adjusted = spec_alpha_forced(texture.data@, pixel_depth == 24 || ignore_alpha);
    let ghost depth_ = pixel_depth as int;
    let ghost s_ = depth_ / 8;
    let total = texture.data.len();
    let c = texture.data[p];
    let mut run: usize = 1;
    while p + run < total && run < 128 && texture.data[p + run] == c
        invariant
            1 <= run <= 128,
            p + run <= total,
            p < total,
            total == texture.data@.len(),
            texture.wf(),
            c == texture.data@[p as int],
            forall|q: int| p <= q < p + run ==> texture.data@[q] == c,
        decreases total - p - run,
    {
        run = run + 1;
    }
    let mut out: Vec<u8> = Vec::new();
    out.push((127 + run) as u8);
    out.push(c.b);
    out.push(c.g);
    out.push(c.r);
    if pixel_depth == 32 {
        if ignore_alpha {
            out.push(255);
        } else {
            out.push(c.a);
        }
    }
    let ghost ca = (TextureColor {
        r: c.r,
        g: c.g,
        b: c.b,
        a: if pixel_depth == 24 || ignore_alpha {
            255
        } else {
            c.a
        },
    });
    proof {
        assert(out@.len() == 1 + s_);
        assert(out@[0] == 127 + run);
        assert(spec_rle_pixel(out@, 1, depth_) == ca);
        assert(Seq::new(run as nat, |i: int| spec_rle_pixel(out@, 1, depth_)) =~= adjusted.subrange(
            p as int,
            p + run,
        ));
    }
    if p + run < total {
        let ghost head = out@;
        let mut rest = rle_encode_from(texture, p + run, pixel_depth, ignore_alpha);
        let ghost rest_bytes = rest@;
        out.append(&mut rest);
        proof {
            lemma_rle_end(rest_bytes, 0, total - (p + run), depth_);
            assert forall|j: int|
                0 <= j < spec_rle(rest_bytes, 0, total - (p + run), depth_)->Ok_0.1 - 0 implies #[trigger] out@[1
                + s_ + j] == rest_bytes[j] by {}
            lemma_rle_frame(rest_bytes, out@, 0, 1 + s_, total - (p + run), depth_);
            assert(spec_rle(out@, 1 + s_, total - (p + run), depth_) == Ok::<
                (Seq<TextureColor>, int),
                RenderError,
            >((adjusted.subrange(p + run, total as int), out@.len() as int)));
            assert(out@[0] == 127 + run);
            assert(spec_rle_pixel(out@, 1, depth_) == ca);
            assert(Seq::new(run as nat, |i: int| spec_rle_pixel(out@, 1, depth_))
                =~= adjusted.subrange(p as int, p + run));
            assert(adjusted.subrange(p as int, p + run) + adjusted.subrange(p + run, total as int)
                =~= adjusted.subrange(p as int, total as int));
        }
    } else {
        proof {
            assert(adjusted.subrange(p as int, p + run) == adjusted.subrange(
                p as int,
                total as int,
            ));
        }
    }
    out
}

/// The meaning of a whole image file: either the image's width, height and
/// pixels, or the error its bytes force.  The header gives the size, type
/// and depth; types 2 and 3 carry raw pixels, types 10 and 11 run-length
/// packets; descriptor bit 4 mirrors the image left to right and bit 5 top
/// to bottom.
pub open spec fn spec_decode(bytes: Seq<u8>) -> Result<(int, int, Seq<TextureColor>), RenderError> {
    if bytes.len() < 18 {
        Err(RenderError::ReadError)
    } else {
        let h = spec_parse_header(bytes);
        let depth = h.pixel_depth as int;
        if !(depth == 8 || depth == 24 || depth == 32) {
            Err(RenderError::UnsupportedFileFormat)
        } else {
            let w = h.image_width as int;
            let ht = h.image_height as int;
            let total = w * ht;
            let s = depth / 8;
            let pixels_or: Result<Seq<TextureColor>, RenderError> = if h.image_type == 2
                || h.image_type == 3 {
                if 18 + total * s > bytes.len() {
                    Err(RenderError::ReadError)
                } else {
                    Ok(spec_raw_pixels(bytes.subrange(18, 18 + total * s), depth, total))
                }
            } else if h.image_type == 10 || h.image_type == 11 {
                match spec_rle(bytes, 18, total, depth) {
                    Ok((pix, end)) => Ok(pix),
                    Err(e) => Err(e),
                }
            } else {
                Err(RenderError::UnsupportedFileFormat)
            };
            match pixels_or {
                Ok(pixels) => {
                    let p1 = if (h.image_descriptor >> 4) & 1 == 1 {
                        spec_hflip(pixels, w, ht)
                    } else {
                        pixels
                    };
                    let p2 = if (h.image_descriptor >> 5) & 1 == 1 {
                        spec_vflip(p1, w, ht)
                    } else {
                        p1
                    };
                    Ok((w, ht, p2))
                },
                Err(e) => Err(e),
            }
        }
    }
}

/// Decodes an image file into a texture.  On success the texture is exactly
/// what the byte stream describes; on failure the error is the one the
/// bytes force.
pub fn decode(data: &Vec<u8>) -> (r: Result<Texture, RenderError>)
    ensures
        match r {
            Ok(t) => t.wf() && spec_decode(data@) == Ok::<_, RenderError>(
                (t.width as int, t.height as int, t.data@),
            ),
            Err(e) => spec_decode(data@) == Err::<(int, int, Seq<TextureColor>), RenderError>(e),
        },
{
    let tga_header = match parse_header(data) {
        Ok(h) => h,
        Err(e) => {
            return Err(e);
        },
    };
    let width = tga_header.image_width as u32;
    let height = tga_header.image_height as u32;
    let pixel_depth = tga_header.pixel_depth;
    if !(pixel_depth == 8 || pixel_depth == 24 || pixel_depth == 32) {
        return Err(RenderError::UnsupportedFileFormat);
    }
    proof {
        assert(width * height < 0x1_0000_0000) by (nonlinear_arith)
            requires
                width <= 0xffff,
                height <= 0xffff,
        ;
        assert(usize::MAX >= 0xffff_ffff);
    }
    let mut texture = Texture::new(width, height);
    let total = (width as usize) * (height as usize);
    let s = (pixel_depth / 8) as u64;
    let raw_data_size = (total as u64) * s;
    let len = data.len();
    match tga_header.image_type {
        2 | 3 => {
            if raw_data_size > usize::MAX as u64 {
                proof {
                    assert(18 + total * (pixel_depth / 8) > data@.len());
                }
                return Err(RenderError::ReadError);
            }
            let raw_data = match read_n_bytes(data, 18, raw_data_size as usize) {
                Ok(raw) => raw,
                Err(e) => {
                    proof {
                        assert(18 + total * (pixel_depth / 8) > data@.len());
                    }
                    return Err(e);
                },
            };
            set_image_data(&mut texture, &raw_data, pixel_depth);
            proof {
                assert(texture.data@ =~= spec_raw_pixels(
                    data@.subrange(18, 18 + total * (pixel_depth / 8)),
                    pixel_depth as int,
                    total as int,
                ));
            }
        },
        10 | 11 => {
            match rle_decode(&mut texture, data, 18, pixel_depth) {
                Ok(()) => {
                },
                Err(e) => {
                    return Err(e);
                },
            }
        },
        _ => {
            return Err(RenderError::UnsupportedFileFormat);
        },
    }
    if (tga_header.image_descriptor >> 4) & 1 == 1 {
        texture.flip_horizontally();
    }
    if (tga_header.image_descriptor >> 5) & 1 == 1 {
        texture.flip_vertically();
    }
    Ok(texture)
}

/// Encodes a texture as an uncompressed truecolor image file of depth 24 or
/// 32, little-endian header first.  Decoding the result yields the same
/// size and pixels, with alpha fully opaque when the depth drops it or
/// `ignore_alpha` is set: the codec round-trips.
pub fn encode(texture: &Texture, pixel_depth: u8, rle: bool, ignore_alpha: bool) -> (r: Result<
    Vec<u8>,
    RenderError,
>)
    requires
        texture.wf(),
        texture.width <= 0xffff,
        texture.height <= 0xffff,
        18 + texture.width * texture.height * (pixel_depth / 8) <= usize::MAX,
        rle ==> texture.width * texture.height >= 1,
    ensures
        match r {
            Ok(bytes) => (pixel_depth == 24 || pixel_depth == 32) && spec_decode(bytes@) == Ok::<
                _,
                RenderError,
            >(
                (
                    texture.width as int,
                    texture.height as int,
                    spec_alpha_forced(texture.data@, pixel_depth == 24 || ignore_alpha),
                ),
            ),
            Err(e) => e == RenderError::UnsupportedFileFormat && !(pixel_depth == 24
                || pixel_depth == 32),
        },
{
    if !(pixel_depth == 24 || pixel_depth == 32) {
        return Err(RenderError::UnsupportedFileFormat);
    }
    let tga_header = TgaHeader {
        image_id_length: 0,
        color_map_type: 0,
        image_type: if rle {
            10
        } else {
            2
        },
        color_map_first_entry_index: 0,
        color_map_length: 0,
        color_map_entry_size: 0,
        x_origin: 0,
        y_origin: 0,
        image_width: texture.width as u16,
        image_height: texture.height as u16,
        pixel_depth,
        image_descriptor: 0,
    };
    let mut out = header_to_bytes(&tga_header);
    if rle {
        let mut body = rle_encode_from(texture, 0, pixel_depth, ignore_alpha);
        let ghost body_bytes = body@;
        out.append(&mut body);
        proof {
            let bytes = out@;
            let total = texture.width * texture.height;
            let depth_ = pixel_depth as int;
            let hdr = spec_header_bytes(tga_header);
            lemma_header_round_trip(tga_header);
            assert forall|k: int| 0 <= k < 18 implies bytes[k] == hdr[k] by {}
            assert(spec_parse_header(bytes) == spec_parse_header(hdr));
            assert(spec_parse_header(bytes) == tga_header);
            let d = tga_header.image_descriptor;
            assert((d >> 4) & 1 == 0 && (d >> 5) & 1 == 0) by (bit_vector)
                requires
                    d == 0,
            ;
            assert(tga_header.image_width as int == texture.width as int);
            assert(tga_header.image_height as int == texture.height as int);
            let adjusted = spec_alpha_forced(texture.data@, pixel_depth == 24 || ignore_alpha);
            assert(spec_rle(body_bytes, 0, total as int, depth_) == Ok::<
                (Seq<TextureColor>, int),
                RenderError,
            >((adjusted.subrange(0, total as int), body_bytes.len() as int)));
            lemma_rle_end(body_bytes, 0, total as int, depth_);
            assert forall|j: int|
                0 <= j < spec_rle(body_bytes, 0, total as int, depth_)->Ok_0.1 - 0 implies #[trigger] bytes[
                18 + j] == body_bytes[j] by {}
            lemma_rle_frame(body_bytes, bytes, 0, 18, total as int, depth_);
            assert(adjusted.subrange(0, total as int) =~= adjusted);
        }
        return Ok(out);
    }
    let mut raw_data = get_image_data(texture, pixel_depth, ignore_alpha);
    let ghost raw_bytes = raw_data@;
    out.append(&mut raw_data);
    proof {
        let bytes = out@;
        let total = texture.width * texture.height;
        let s_ = pixel_depth as int / 8;
        let hdr = spec_header_bytes(tga_header);
        lemma_header_round_trip(tga_header);
        assert(raw_bytes.len() == total * (pixel_depth / 8));
        assert(bytes.len() == 18 + total * s_);
        assert forall|k: int| 0 <= k < 18 implies bytes[k] == hdr[k] by {}
        assert(spec_parse_header(bytes) == spec_parse_header(hdr));
        assert(spec_parse_header(bytes) == tga_header);
        let d = tga_header.image_descriptor;
        assert((d >> 4) & 1 == 0 && (d >> 5) & 1 == 0) by (bit_vector)
            requires
                d == 0,
        ;
        assert(tga_header.image_width as int == texture.width as int);
        assert(tga_header.image_height as int == texture.height as int);
        assert(bytes.subrange(18, 18 + total * s_) =~= raw_bytes);
        assert(spec_raw_pixels(bytes.subrange(18, 18 + total * s_), pixel_depth as int, total as int)
            == spec_raw_pixels(raw_bytes, pixel_depth as int, total as int));
        assert(spec_raw_pixels(raw_bytes, pixel_depth as int, total as int) == spec_alpha_forced(
            texture.data@,
            pixel_depth == 24 || ignore_alpha,
        ));
    }
    Ok(out)
}



} // verus!
