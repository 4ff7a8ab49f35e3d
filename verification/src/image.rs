//! PNG images: decoding a file's bytes into RGBA pixels, and encoding pixels
//! into a file's bytes.
use crate::color::{rgba8_to_bytes, rgba_bytes, Rgba8};
use vstd::prelude::*;

verus! {

/// What the PNG decoder reports of an image's header: its output colour
/// type (as the PNG colour-type code), width and height; `None` where the
/// header cannot be decoded.
pub uninterp spec fn png_info(bytes: Seq<u8>) -> Option<(u8, u32, u32)>;

/// The first frame the PNG decoder decodes from `bytes`; `None` where
/// decoding fails.
pub uninterp spec fn png_frame(bytes: Seq<u8>) -> Option<Seq<u8>>;

/// The PNG file the encoder writes for an 8-bit RGBA image of the given
/// size and sample bytes; `None` where encoding fails.
pub uninterp spec fn png_encode(w: u32, h: u32, data: Seq<u8>) -> Option<Seq<u8>>;

/// The PNG colour-type code of 8-bit RGBA images.
pub const RGBA_COLOR_TYPE: u8 = 6;

/// Why an image could not be read or written.
#[derive(Clone, Copy, Debug, PartialEq, Eq, Structural)]
pub enum ImageError {
    /// The bytes are not a PNG image the decoder reads.
    DecodingFailed,
    /// The image is not 8-bit RGBA.
    NotRgba8,
    /// The encoder refused the image.
    EncodingFailed,
}

impl ImageError {
    pub open spec fn text(self) -> Seq<char> {
        match self {
            ImageError::DecodingFailed => "decoding failed"@,
            ImageError::NotRgba8 => "only 8-bit RGBA images are supported"@,
            ImageError::EncodingFailed => "encoding failed"@,
        }
    }

    /// The message shown to the user.
    pub fn message(&self) -> (m: &'static str)
        ensures
            m@ == self.text(),
    {
        match self {
            ImageError::DecodingFailed => "decoding failed",
            ImageError::NotRgba8 => "only 8-bit RGBA images are supported",
            ImageError::EncodingFailed => "encoding failed",
        }
    }
}

/// Calls `png::Decoder::read_info` on the bytes and gives the output colour
/// type, width and height it reports, or `None` where it fails.
#[verifier::external_body]
fn png_read_info(bytes: &[u8]) -> (r: Option<(u8, u32, u32)>)
    ensures
        r == png_info(bytes@),
{
    match png::Decoder::new(bytes).read_info() {
        Ok((info, _)) => Some((info.color_type as u8, info.width, info.height)),
        Err(_) => None,
    }
}

/// Calls `png::Decoder::read_info`, then `Reader::next_frame` into a zeroed
/// buffer of the size the header gives, and gives the buffer, or `None`
/// where either fails.
#[verifier::external_body]
fn png_next_frame(bytes: &[u8]) -> (r: Option<Vec<u8>>)
    ensures
        match r {
            Some(v) => png_frame(bytes@) == Some(v@),
            None => png_frame(bytes@) is None,
        },
{
    let (info, mut reader) = match png::Decoder::new(bytes).read_info() {
        Ok(decoded) => decoded,
        Err(_) => return None,
    };
    let mut buffer: Vec<u8> = vec![0; info.buffer_size()];
    match reader.next_frame(&mut buffer) {
        Ok(()) => Some(buffer),
        Err(_) => None,
    }
}

/// Calls `png::Encoder` set to 8-bit RGBA, writes the header and the image
/// data into a byte vector, and gives the bytes (the end chunk is written
/// when the writer is dropped), or `None` where writing fails.
#[verifier::external_body]
fn png_encode_rgba(w: u32, h: u32, data: &[u8]) -> (r: Option<Vec<u8>>)
    ensures
        match r {
            Some(v) => png_encode(w, h, data@) == Some(v@),
            None => png_encode(w, h, data@) is None,
        },
{
    let mut out: Vec<u8> = Vec::new();
    {
        let mut encoder = png::Encoder::new(&mut out, w, h);
        encoder.set_color(png::ColorType::RGBA);
        encoder.set_depth(png::BitDepth::Eight);
        let mut writer = match encoder.write_header() {
            Ok(writer) => writer,
            Err(_) => return None,
        };
        if writer.write_image_data(data).is_err() {
            return None;
        }
    }
    Some(out)
}

/// Read a PNG image from its bytes: its RGBA samples, width and height.
/// Only 8-bit RGBA images are read.
pub fn read_png(bytes: &[u8]) -> (r: Result<(Vec<u8>, u32, u32), ImageError>)
    ensures
        match png_info(bytes@) {
            None => r == Err::<(Vec<u8>, u32, u32), ImageError>(ImageError::DecodingFailed),
            Some((color, w, h)) => if color != RGBA_COLOR_TYPE {
                r == Err::<(Vec<u8>, u32, u32), ImageError>(ImageError::NotRgba8)
            } else {
                match png_frame(bytes@) {
                    None => r == Err::<(Vec<u8>, u32, u32), ImageError>(ImageError::DecodingFailed),
                    Some(frame) => r matches Ok((v, rw, rh)) && v@ == frame && rw == w && rh == h,
                }
            },
        },
{
    match png_read_info(bytes) {
        None => Err(ImageError::DecodingFailed),
        Some((color, w, h)) => {
            if color != RGBA_COLOR_TYPE {
                return Err(ImageError::NotRgba8);
            }
            match png_next_frame(bytes) {
                None => Err(ImageError::DecodingFailed),
                Some(v) => Ok((v, w, h)),
            }
        },
    }
}

/// Write pixels as an 8-bit RGBA PNG image of the given size.
pub fn write_png(w: u32, h: u32, pixels: &[Rgba8]) -> (r: Result<Vec<u8>, ImageError>)
    requires
        pixels@.len() * 4 <= usize::MAX,
    ensures
        match png_encode(w, h, rgba_bytes(pixels@)) {
            Some(file) => r matches Ok(v) && v@ == file,
            None => r == Err::<Vec<u8>, ImageError>(ImageError::EncodingFailed),
        },
{
    let data = rgba8_to_bytes(pixels);
    match png_encode_rgba(w, h, data.as_slice()) {
        Some(v) => Ok(v),
        None => Err(ImageError::EncodingFailed),
    }
}

/// The parent that `std::path::Path::parent` gives of a path, if any.
pub uninterp spec fn path_parent(p: Seq<char>) -> Option<Seq<char>>;

/// The stem that `std::path::Path::file_stem` gives of a path, if any.
pub uninterp spec fn path_stem(p: Seq<char>) -> Option<Seq<char>>;

/// The extension that `std::path::Path::extension` gives of a path, if any.
pub uninterp spec fn path_extension(p: Seq<char>) -> Option<Seq<char>>;

/// The path that `std::path::Path::join` gives of a path and a name.
pub uninterp spec fn path_join(a: Seq<char>, b: Seq<char>) -> Seq<char>;

/// The view of an optional string.
pub open spec fn opt_view(o: Option<String>) -> Option<Seq<char>> {
    match o {
        Some(s) => Some(s@),
        None => None,
    }
}

/// Calls `std::path::Path::parent` and gives the parent as a string.
#[verifier::external_body]
fn parent_of(p: &str) -> (r: Option<String>)
    ensures
        opt_view(r) == path_parent(p@),
{
    match std::path::Path::new(p).parent() {
        Some(q) => Some(q.to_string_lossy().into_owned()),
        None => None,
    }
}

/// Calls `std::path::Path::file_stem` and gives the stem as a string.
#[verifier::external_body]
fn stem_of(p: &str) -> (r: Option<String>)
    ensures
        opt_view(r) == path_stem(p@),
{
    match std::path::Path::new(p).file_stem() {
        Some(q) => Some(q.to_string_lossy().into_owned()),
        None => None,
    }
}

/// Calls `std::path::Path::extension` and gives the extension as a string.
#[verifier::external_body]
fn extension_of(p: &str) -> (r: Option<String>)
    ensures
        opt_view(r) == path_extension(p@),
{
    match std::path::Path::new(p).extension() {
        Some(q) => Some(q.to_string_lossy().into_owned()),
        None => None,
    }
}

/// Calls `std::path::Path::join` and gives the path as a string.
#[verifier::external_body]
fn join_of(a: &str, b: &str) -> (r: String)
    ensures
        r@ == path_join(a@, b@),
{
    std::path::Path::new(a).join(b).to_string_lossy().into_owned()
}

/// The path of a PNG image: its parent directory and its name without the
/// `png` extension.
#[derive(Debug)]
pub struct Path {
    pub parent: String,
    pub name: String,
}

/// The message for a path that is not one of a PNG image.
pub open spec fn invalid_path(p: Seq<char>) -> Seq<char> {
    seq!['`'] + p + "` is not a valid path"@
}

impl Path {
    /// The path of a PNG image, where `p` has a parent, a stem and the
    /// extension `png`.
    pub fn try_from(p: &str) -> (r: Result<Path, String>)
        ensures
            match (path_parent(p@), path_stem(p@), path_extension(p@)) {
                (Some(parent), Some(name), Some(ext)) if ext == "png"@ => r matches Ok(q) && q.parent@ == parent
                    && q.name@ == name,
                _ => r matches Err(e) && e@ == invalid_path(p@),
            },
    {
        proof {
            reveal_strlit("png");
        }
        let parent = parent_of(p);
        let name = stem_of(p);
        let ext = extension_of(p);
        match (parent, name, ext) {
            (Some(parent), Some(name), Some(ext)) => {
                if crate::session::str_eq(ext.as_str(), "png") {
                    return Ok(Path { parent, name });
                }
            },
            _ => {},
        }
        let mut m = String::new();
        m.append("`");
        m.append(p);
        m.append("` is not a valid path");
        proof {
            reveal_strlit("`");
            reveal_strlit("` is not a valid path");
        }
        Err(m)
    }

    /// The file's name without its extension.
    pub fn file_stem(&self) -> (s: &str)
        ensures
            s@ == self.name@,
    {
        self.name.as_str()
    }

    /// The file's extension.
    pub fn extension(&self) -> (s: &'static str)
        ensures
            s@ == "png"@,
    {
        "png"
    }

    /// The directory the file is in.
    pub fn parent(&self) -> (s: &str)
        ensures
            s@ == self.parent@,
    {
        self.parent.as_str()
    }

    /// The path written out: the parent joined with the name, then `.png`.
    pub fn to_string(&self) -> (s: String)
        ensures
            s@ == path_join(self.parent@, self.name@) + ".png"@,
    {
        let mut s = join_of(self.parent.as_str(), self.name.as_str());
        s.append(".png");
        s
    }
}

} // verus!
