//! Flattened previews: an RGBA8 buffer composited over an opaque colour.
use vstd::prelude::*;

verus! {

/// The RGBA8 bytes of a `width` by `height` image of opaque colour
/// `(r, g, b)` with the RGBA8 image `top` alpha-blended over it.
pub uninterp spec fn composited(r: u8, g: u8, b: u8, width: nat, height: nat, top: Seq<u8>) -> Seq<u8>;

/// Pixel `p` of `out` is the background where pixel `p` of `top` is fully
/// transparent, and is `top`'s own where that one is fully opaque.
pub open spec fn keeps_extremes(r: u8, g: u8, b: u8, top: Seq<u8>, out: Seq<u8>, p: int) -> bool {
    let i = 4 * p;
    &&& top[i + 3] == 0 ==> out.subrange(i, i + 4) == seq![r, g, b, 255u8]
    &&& top[i + 3] == 255 ==> out.subrange(i, i + 4) == top.subrange(i, i + 4)
}

/// Relies on `image::imageops::overlay`, blending `top` over an opaque image
/// that `ImageBuffer::from_pixel` fills with `(r, g, b)`; the result has the
/// background's size.
#[verifier::external_body]
fn composite_over(r: u8, g: u8, b: u8, width: u32, height: u32, top: Vec<u8>) -> (out: Vec<u8>)
    requires
        top@.len() == width as int * height as int * 4,
    ensures
        out@ == composited(r, g, b, width as nat, height as nat, top@),
        out@.len() == width as int * height as int * 4,
        forall|p: int| 0 <= p < width as int * height as int ==> #[trigger] keeps_extremes(r, g, b, top@, out@, p),
{
    let top = image::RgbaImage::from_raw(width, height, top).unwrap_or_default();
    let mut bottom = image::RgbaImage::from_pixel(width, height, image::Rgba([r, g, b, 255]));
    image::imageops::overlay(&mut bottom, &top, 0, 0);
    bottom.into_raw()
}

/// `bytes`, read as a `width` by `height` RGBA8 image, blended over opaque
/// `(r, g, b)`; nothing when `bytes` is not exactly `width * height * 4` long.
pub fn overlay_color(r: u8, g: u8, b: u8, width: u32, height: u32, bytes: Vec<u8>) -> (out: Option<Vec<u8>>)
    ensures
        out is None <==> bytes@.len() != width as int * height as int * 4,
        out matches Some(o) ==> o@ == composited(r, g, b, width as nat, height as nat, bytes@),
        out matches Some(o) ==> o@.len() == bytes@.len(),
        out matches Some(o) ==> forall|p: int|
            0 <= p < width as int * height as int ==> #[trigger] keeps_extremes(r, g, b, bytes@, o@, p),
{
    assert((width as u128) * (height as u128) * 4 <= u128::MAX) by (nonlinear_arith)
        requires
            width <= u32::MAX,
            height <= u32::MAX,
    ;
    let expected: u128 = (width as u128) * (height as u128) * 4;
    if bytes.len() as u128 != expected {
        return None;
    }
    Some(composite_over(r, g, b, width, height, bytes))
}

} // verus!
