//! Texture assets decoded from embedded image files.
use vstd::prelude::*;
use vstd::string::StringExecFns;

verus! {

/// Raw RGBA texture data that can be uploaded to the GPU.
pub struct TextureAsset {
    pub width: u32,
    pub height: u32,
    pub pixels: Vec<u8>,
}

/// Decodes an image file with `image::load_from_memory` (the format is
/// guessed from the bytes) and converts the result to plain values with
/// `DynamicImage::width`, `DynamicImage::height` and
/// `DynamicImage::to_rgba8` / `ImageBuffer::into_raw`; an error becomes its
/// `Display` text. Stated of every outcome: an image buffer always holds at
/// least four bytes for each of its `width * height` RGBA pixels (every
/// constructor of `ImageBuffer` checks or allocates that much). Which image
/// comes out, or which error, is left unsaid: it depends on the decoders and
/// format hooks registered in the process, not on the bytes alone.
#[verifier::external_body]
fn load_rgba8(bytes: &[u8]) -> (r: Result<(u32, u32, Vec<u8>), String>)
    ensures
        r matches Ok((w, h, p)) ==> p@.len() >= 4 * w * h,
{
    match image::load_from_memory(bytes) {
        Ok(img) => Ok((img.width(), img.height(), img.to_rgba8().into_raw())),
        Err(e) => Err(format!("{}", e)),
    }
}

/// Builds the texture from a decoding outcome; a decoder error message is
/// prefixed with `Failed to decode texture: `.
pub fn texture_from_decoded(decoded: Result<(u32, u32, Vec<u8>), String>) -> (r: Result<
    TextureAsset,
    String,
>)
    ensures
        match decoded {
            Ok((w, h, p)) => r matches Ok(t) && t.width == w && t.height == h && t.pixels@ == p@,
            Err(m) => r matches Err(e) && e@ == "Failed to decode texture: "@ + m@,
        },
{
    match decoded {
        Ok((width, height, pixels)) => Ok(TextureAsset { width, height, pixels }),
        Err(m) => {
            let mut msg = String::from_str("Failed to decode texture: ");
            msg.append(m.as_str());
            Err(msg)
        },
    }
}

/// Decodes an image file into an RGBA texture. The decoder decides the
/// outcome; whatever it is, a texture holds at least four bytes per pixel
/// and an error message starts with `Failed to decode texture: `
/// (`texture_from_decoded` states the outcome exactly).
pub fn decode_to_rgba(bytes: &[u8]) -> (r: Result<TextureAsset, String>)
    ensures
        match r {
            Ok(t) => t.pixels@.len() >= 4 * t.width * t.height,
            Err(e) => "Failed to decode texture: "@.is_prefix_of(e@),
        },
{
    proof {
        let prefix = "Failed to decode texture: "@;
        assert forall|m: Seq<char>| #[trigger] (prefix + m).subrange(0, prefix.len() as int) =~= prefix by {}
    }
    texture_from_decoded(load_rgba8(bytes))
}

} // verus!
