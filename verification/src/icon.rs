use vstd::prelude::*;

verus! {

/// What the `image` crate decodes an encoded picture into: its pixels as RGBA
/// bytes, row by row, and its width and height; `None` where it cannot decode it.
pub uninterp spec fn decoded_rgba(bytes: Seq<u8>) -> Option<(Seq<u8>, u32, u32)>;

/// Decodes a picture by `image::load_from_memory`, then converts it to 8-bit
/// RGBA (`to_rgba8`) and takes its size and pixel bytes.
///
/// Claimed: the result depends on the bytes alone; it is named, not described.
#[verifier::external_body]
fn decode_rgba(bytes: &[u8]) -> (r: Option<(Vec<u8>, u32, u32)>)
    ensures
        match r {
            Some((px, w, h)) => decoded_rgba(bytes@) == Some((px@, w, h)),
            None => decoded_rgba(bytes@) is None,
        },
{
    match image::load_from_memory(bytes) {
        Ok(img) => {
            let rgba = img.to_rgba8();
            let (w, h) = rgba.dimensions();
            Some((rgba.into_raw(), w, h))
        },
        Err(_) => None,
    }
}

/// The window icon: RGBA pixel bytes and the picture's size.
#[derive(Debug)]
pub struct IconImage {
    pub rgba: Vec<u8>,
    pub width: u32,
    pub height: u32,
}

/// The window icon decoded from an encoded picture (the program embeds a PNG);
/// `None` where the picture cannot be decoded.
pub fn load_icon(encoded: &[u8]) -> (r: Option<IconImage>)
    ensures
        match decoded_rgba(encoded@) {
            Some((px, w, h)) => r matches Some(i) && i.rgba@ == px && i.width == w && i.height == h,
            None => r is None,
        },
{
    match decode_rgba(encoded) {
        Some((rgba, width, height)) => Some(IconImage { rgba, width, height }),
        None => None,
    }
}

} // verus!
