//! The plain-text image stream: a header that declares width, height and the
//! largest channel value, then one line `r g b` per pixel.
use vstd::prelude::*;

verus! {

/// The largest value of a channel in the stream.
pub const MAX_CHANNEL: u32 = 255;

/// A pixel as it is written: three channels in `0..=255`.
#[derive(Clone, Copy, Debug, PartialEq, Eq, Structural)]
pub struct Rgb {
    pub r: u8,
    pub g: u8,
    pub b: u8,
}

/// The ASCII decimal digits of `n`, without leading zeros.
pub open spec fn decimal(n: nat) -> Seq<u8>
    decreases n,
{
    if n < 10 {
        seq![(48 + n) as u8]
    } else {
        decimal(n / 10) + seq![(48 + n % 10) as u8]
    }
}

/// `P3`, then width and height, then the largest channel value, each
/// followed by a line break; width and height are separated by a space.
pub open spec fn header_bytes(width: nat, height: nat) -> Seq<u8> {
    seq![80u8, 51u8, 10u8, 32u8] + decimal(width) + seq![32u8] + decimal(height)
        + seq![10u8, 50u8, 53u8, 53u8, 10u8]
}

/// One pixel: the three channels in decimal, separated by spaces, then a
/// line break.
pub open spec fn pixel_bytes(p: Rgb) -> Seq<u8> {
    decimal(p.r as nat) + seq![32u8] + decimal(p.g as nat) + seq![32u8] + decimal(p.b as nat)
        + seq![10u8]
}

/// The pixel lines of `ps`, in order.
pub open spec fn pixels_bytes(ps: Seq<Rgb>) -> Seq<u8>
    decreases ps.len(),
{
    if ps.len() == 0 {
        Seq::empty()
    } else {
        pixels_bytes(ps.drop_last()) + pixel_bytes(ps.last())
    }
}

/// The whole stream of an image of `width` by `height` pixels.
pub open spec fn image_bytes(width: nat, height: nat, ps: Seq<Rgb>) -> Seq<u8> {
    header_bytes(width, height) + pixels_bytes(ps)
}

/// Appends the decimal digits of `n`.
pub fn push_decimal(out: &mut Vec<u8>, n: u32)
    ensures
        final(out)@ == old(out)@ + decimal(n as nat),
    decreases n,
{
    let ghost start = out@;
    if n >= 10 {
        push_decimal(out, n / 10);
    }
    let digit: u32 = n % 10;
    out.push((48 + digit) as u8);
    assert(out@ =~= start + decimal(n as nat));
}

/// Appends the image header.
pub fn write_header(out: &mut Vec<u8>, width: u32, height: u32)
    ensures
        final(out)@ == old(out)@ + header_bytes(width as nat, height as nat),
{
    let ghost start = out@;
    out.push(80u8);
    out.push(51u8);
    out.push(10u8);
    out.push(32u8);
    push_decimal(out, width);
    out.push(32u8);
    push_decimal(out, height);
    out.push(10u8);
    out.push(50u8);
    out.push(53u8);
    out.push(53u8);
    out.push(10u8);
    assert(out@ =~= start + header_bytes(width as nat, height as nat));
}

/// Appends the line of one pixel.
pub fn write_pixel(out: &mut Vec<u8>, p: Rgb)
    ensures
        final(out)@ == old(out)@ + pixel_bytes(p),
{
    let ghost start = out@;
    push_decimal(out, p.r as u32);
    out.push(32u8);
    push_decimal(out, p.g as u32);
    out.push(32u8);
    push_decimal(out, p.b as u32);
    out.push(10u8);
    assert(out@ =~= start + pixel_bytes(p));
}

/// The stream of an image whose pixels are given in the order they are
/// written; `None` when their number is not `width * height`.
pub fn encode_image(width: u32, height: u32, pixels: &Vec<Rgb>) -> (r: Option<Vec<u8>>)
    ensures
        pixels@.len() != width * height <==> r is None,
        r matches Some(bytes) ==> bytes@ == image_bytes(width as nat, height as nat, pixels@),
{
    assert(width as u64 * height as u64 <= u32::MAX as u64 * u32::MAX as u64) by (nonlinear_arith);
    let count: u64 = width as u64 * height as u64;
    if pixels.len() as u64 != count {
        return None;
    }
    let mut out: Vec<u8> = Vec::new();
    write_header(&mut out, width, height);
    let mut i: usize = 0;
    while i < pixels.len()
        invariant
            i <= pixels@.len(),
            out@ == header_bytes(width as nat, height as nat) + pixels_bytes(
                pixels@.subrange(0, i as int),
            ),
        decreases pixels@.len() - i,
    {
        let ghost before = out@;
        write_pixel(&mut out, pixels[i]);
        proof {
            let next = pixels@.subrange(0, i + 1);
            assert(next.drop_last() =~= pixels@.subrange(0, i as int));
            assert(next.last() == pixels@[i as int]);
            assert(out@ =~= header_bytes(width as nat, height as nat) + pixels_bytes(next));
        }
        i = i + 1;
    }
    assert(pixels@.subrange(0, pixels@.len() as int) =~= pixels@);
    Some(out)
}

} // verus!
