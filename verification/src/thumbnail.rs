use vstd::prelude::*;

use base64::Engine;

verus! {

/// The width and height of the picture that `image::load_from_memory`
/// decodes from bytes, or the message of its error.
pub uninterp spec fn decoded_image(data: Seq<u8>) -> Result<(u32, u32), Seq<char>>;

/// Decodes a picture with `image::load_from_memory` and reads its size with
/// `DynamicImage::width` and `height`; the error is rendered with its
/// `Display`. The contract claims only that the size, or the error, is a
/// function of the bytes (`decoded_image`).
#[verifier::external_body]
fn decode_image(data: &[u8]) -> (r: Result<(u32, u32), String>)
    ensures
        match r {
            Ok(t) => decoded_image(data@) == Ok::<(u32, u32), Seq<char>>(t),
            Err(m) => decoded_image(data@) == Err::<(u32, u32), Seq<char>>(m@),
        },
{
    match image::load_from_memory(data) {
        Ok(img) => Ok((img.width(), img.height())),
        Err(e) => Err(e.to_string()),
    }
}

/// The JPEG bytes of the picture that `image::load_from_memory` decodes from
/// `data`, scaled with `DynamicImage::resize` (Lanczos filter, aspect ratio
/// kept) into `width` by `height` and encoded by `JpegEncoder` at `quality`,
/// or the message of the decoder's or encoder's error.
pub uninterp spec fn resized_jpeg(data: Seq<u8>, width: u32, height: u32, quality: u8) -> Result<
    Seq<u8>,
    Seq<char>,
>;

/// Decodes a picture with `image::load_from_memory`, scales it with
/// `DynamicImage::resize` and the Lanczos filter, and encodes the result with
/// `JpegEncoder::new_with_quality` and `encode_image`; errors are rendered
/// with their `Display`. The contract claims only that the bytes, or the
/// error, are a function of the arguments (`resized_jpeg`).
#[verifier::external_body]
fn encode_resized_jpeg(data: &[u8], width: u32, height: u32, quality: u8) -> (r: Result<
    Vec<u8>,
    String,
>)
    ensures
        match r {
            Ok(b) => resized_jpeg(data@, width, height, quality) == Ok::<Seq<u8>, Seq<char>>(b@),
            Err(m) => resized_jpeg(data@, width, height, quality) == Err::<Seq<u8>, Seq<char>>(m@),
        },
{
    let img = image::load_from_memory(data).map_err(|e| e.to_string())?;
    let scaled = img.resize(width, height, image::imageops::FilterType::Lanczos3);
    let mut bytes: Vec<u8> = Vec::new();
    let mut encoder = image::codecs::jpeg::JpegEncoder::new_with_quality(&mut bytes, quality);
    encoder.encode_image(&scaled).map_err(|e| e.to_string())?;
    Ok(bytes)
}

/// The character of a six-bit value in the standard Base64 alphabet:
/// `A`-`Z`, `a`-`z`, `0`-`9`, `+`, `/`.
pub open spec fn base64_char(v: int) -> char {
    if v < 26 {
        (65 + v) as char
    } else if v < 52 {
        (71 + v) as char
    } else if v < 62 {
        (v - 4) as char
    } else if v == 62 {
        '+'
    } else {
        '/'
    }
}

/// The standard Base64 text of bytes, with `=` padding (RFC 4648): each
/// group of three bytes as four characters of six bits each, a last group of
/// one or two bytes padded to four characters.
pub open spec fn base64_standard_encoded(b: Seq<u8>) -> Seq<char>
    decreases b.len(),
{
    if b.len() == 0 {
        Seq::<char>::empty()
    } else {
        let x = b[0] as int;
        let y = if b.len() > 1 {
            b[1] as int
        } else {
            0
        };
        let z = if b.len() > 2 {
            b[2] as int
        } else {
            0
        };
        let c0 = base64_char(x / 4);
        let c1 = base64_char((x % 4) * 16 + y / 16);
        let c2 = base64_char((y % 16) * 4 + z / 64);
        let c3 = base64_char(z % 64);
        if b.len() == 1 {
            seq![c0, c1, '=', '=']
        } else if b.len() == 2 {
            seq![c0, c1, c2, '=']
        } else {
            seq![c0, c1, c2, c3] + base64_standard_encoded(b.skip(3))
        }
    }
}

/// Encodes bytes with `base64::engine::general_purpose::STANDARD.encode`,
/// the standard alphabet with padding, as RFC 4648 section 4 defines it.
#[verifier::external_body]
fn encode_base64(bytes: &[u8]) -> (r: String)
    ensures
        r@ == base64_standard_encoded(bytes@),
{
    base64::engine::general_purpose::STANDARD.encode(bytes)
}

/// Whether the thumbnail size of a picture can be computed in 32 bits: the
/// shorter side times 200 fits, and a tall or square picture has height.
pub open spec fn thumbnail_size_fits(width: u32, height: u32) -> bool {
    if width > height {
        height * 200 <= u32::MAX
    } else {
        height > 0 && width * 200 <= u32::MAX
    }
}

/// The size of a thumbnail: the longer side 200 pixels, the other in
/// proportion (rounded down, at least 1); square pictures are 200 by 200.
pub open spec fn thumbnail_size_spec(width: u32, height: u32) -> (int, int) {
    if width > height {
        let h = height * 200 / width as int;
        (200, if h < 1 {
            1
        } else {
            h
        })
    } else {
        let w = width * 200 / height as int;
        (if w < 1 {
            1
        } else {
            w
        }, 200)
    }
}

/// The size of a thumbnail of a picture of the given size.
pub fn thumbnail_dimensions(width: u32, height: u32) -> (r: (u32, u32))
    requires
        thumbnail_size_fits(width, height),
    ensures
        r.0 == thumbnail_size_spec(width, height).0,
        r.1 == thumbnail_size_spec(width, height).1,
{
    let max_dim: u32 = 200;
    if width > height {
        let h = height * max_dim / width;
        (max_dim, if h < 1 {
            1
        } else {
            h
        })
    } else {
        let w = width * max_dim / height;
        (if w < 1 {
            1
        } else {
            w
        }, max_dim)
    }
}

/// Whether the encoding loop stops at a quality: the bytes fit in
/// `max_size_kb` whole kilobytes, or the quality is down to 50.
pub open spec fn thumbnail_done(len: nat, max_size_kb: usize, quality: int) -> bool {
    len / 1024 <= max_size_kb || quality <= 50
}

/// The JPEG bytes the encoding loop settles on, starting at `quality` and
/// going down by 5: the first encoding that fits in `max_size_kb` kilobytes,
/// or the one at quality 50 or below; or the first error.
pub open spec fn jpeg_at_best_quality(
    data: Seq<u8>,
    width: u32,
    height: u32,
    max_size_kb: usize,
    quality: int,
) -> Result<Seq<u8>, Seq<char>>
    decreases quality,
{
    match resized_jpeg(data, width, height, quality as u8) {
        Err(m) => Err(m),
        Ok(b) => if thumbnail_done(b.len(), max_size_kb, quality) || quality <= 0 {
            Ok(b)
        } else {
            jpeg_at_best_quality(data, width, height, max_size_kb, quality - 5)
        },
    }
}

/// The preview `generate_image_thumbnail` gives: the decoder's error, or the
/// Base64 text of the JPEG bytes of the picture scaled to its thumbnail size
/// at the first quality from 85 down in steps of 5 that fits in
/// `max_size_kb` kilobytes (or 50), or the encoder's error.
pub open spec fn image_thumbnail(data: Seq<u8>, max_size_kb: usize) -> Result<Seq<char>, Seq<char>> {
    match decoded_image(data) {
        Err(m) => Err(m),
        Ok(size) => {
            let dims = thumbnail_size_spec(size.0, size.1);
            match jpeg_at_best_quality(data, dims.0 as u32, dims.1 as u32, max_size_kb, 85) {
                Ok(b) => Ok(base64_standard_encoded(b)),
                Err(m) => Err(m),
            }
        },
    }
}

/// A small JPEG preview of a picture, as Base64 text: at most 200 pixels on
/// its longer side, encoded at quality 85 and then 5 lower each time until
/// it fits in `max_size_kb` kilobytes or the quality is 50. A picture that
/// does not decode gives the decoder's message.
pub fn generate_image_thumbnail(image_data: &[u8], max_size_kb: usize) -> (r: Result<String, String>)
    requires
        decoded_image(image_data@) matches Ok(size) ==> thumbnail_size_fits(size.0, size.1),
    ensures
        match r {
            Ok(s) => image_thumbnail(image_data@, max_size_kb) == Ok::<Seq<char>, Seq<char>>(s@),
            Err(m) => image_thumbnail(image_data@, max_size_kb) == Err::<Seq<char>, Seq<char>>(m@),
        },
{
    let (width, height) = match decode_image(image_data) {
        Ok(t) => t,
        Err(m) => {
            return Err(m);
        },
    };
    let (new_width, new_height) = thumbnail_dimensions(width, height);
    let ghost goal = jpeg_at_best_quality(image_data@, new_width, new_height, max_size_kb, 85);
    let mut quality: u8 = 85;
    loop
        invariant
            50 <= quality <= 85,
            quality % 5 == 0,
            decoded_image(image_data@) == Ok::<(u32, u32), Seq<char>>((width, height)),
            new_width == thumbnail_size_spec(width, height).0,
            new_height == thumbnail_size_spec(width, height).1,
            goal == jpeg_at_best_quality(image_data@, new_width, new_height, max_size_kb, 85),
            goal == jpeg_at_best_quality(
                image_data@,
                new_width,
                new_height,
                max_size_kb,
                quality as int,
            ),
        decreases quality,
    {
        assert(quality as int as u8 == quality);
        let bytes = match encode_resized_jpeg(image_data, new_width, new_height, quality) {
            Ok(b) => b,
            Err(m) => {
                return Err(m);
            },
        };
        let size_kb = bytes.len() / 1024;
        if size_kb <= max_size_kb || quality <= 50 {
            let s = encode_base64(bytes.as_slice());
            return Ok(s);
        }
        quality = quality - 5;
    }
}

/// A preview of a picture where its thumbnail size can be computed; `None`
/// for a picture so narrow or so large that it cannot.
pub fn checked_image_thumbnail(image_data: &[u8], max_size_kb: usize) -> (r: Option<
    Result<String, String>,
>)
    ensures
        r is None <==> (decoded_image(image_data@) matches Ok(size) && !thumbnail_size_fits(
            size.0,
            size.1,
        )),
        r matches Some(res) ==> match res {
            Ok(s) => image_thumbnail(image_data@, max_size_kb) == Ok::<Seq<char>, Seq<char>>(s@),
            Err(m) => image_thumbnail(image_data@, max_size_kb) == Err::<Seq<char>, Seq<char>>(m@),
        },
{
    match decode_image(image_data) {
        Ok((w, h)) => {
            let fits = if w > h {
                (h as u64) * 200 <= u32::MAX as u64
            } else {
                h > 0 && (w as u64) * 200 <= u32::MAX as u64
            };
            if !fits {
                return None;
            }
        },
        Err(_) => {},
    }
    Some(generate_image_thumbnail(image_data, max_size_kb))
}

} // verus!
