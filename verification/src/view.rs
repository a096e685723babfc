//! Showing a PIC picture as PNG.

use base64::Engine;
use vstd::prelude::*;
use vstd::string::StringExecFns;

use crate::single::shrunk_height_of;
#[allow(unused_imports)]
use crate::single::{
    law_shrinking_does_not_enlarge, law_shrinking_keeps_all_proportions,
    law_shrinking_keeps_the_proportions, shrunk_height, single,
};
use crate::text::{decimal_of, join};
#[allow(unused_imports)]
use crate::text::{decimal, joined, law_joining, texts};

verus! {

/// A picture as the PIC decoder hands it over: three bytes for each pixel, row by
/// row.
pub struct PicImage {
    pub width: u32,
    pub height: u32,
    pub bit_depth: u16,
    pub mode: u16,
    pub comment: String,
    pub rgb: Vec<u8>,
}

/// What the client is told of a picture.
pub struct ViewImageMetadata {
    pub format: String,
    pub width: u32,
    pub height: u32,
    pub bit_depth: u16,
    pub mode: u16,
    pub comment: String,
    pub source: String,
}

/// Why a picture is not shown.
#[derive(Debug)]
pub enum ViewError {
    /// The file does not start like a PIC file.
    NotPic { first: Vec<u8> },
    /// The PIC decoder gave up.
    DecodeFailed { reason: String },
    /// The decoder's pixels do not fill the picture.
    BufferMismatch,
    /// The PNG encoder gave up.
    EncodeFailed { reason: String },
    /// The picture is too large to be worked on, or its PNG to be written out as one text.
    TooLarge,
}

/// The upper-case hexadecimal digit for a value below sixteen.
pub open spec fn upper_hex_digit(d: int) -> char {
    if d < 10 {
        (d + 48) as char
    } else {
        (d + 55) as char
    }
}

/// A byte as two hexadecimal digits.
pub open spec fn upper_hex(b: u8) -> Seq<char> {
    seq![upper_hex_digit(b as int / 16), upper_hex_digit(b as int % 16)]
}

/// Bytes as a list in brackets.
pub open spec fn byte_list(bytes: Seq<u8>) -> Seq<char> {
    "["@ + joined(bytes.map_values(|b: u8| upper_hex(b)), ", "@) + "]"@
}

/// A byte as two hexadecimal digits.
fn upper_hex_of(b: u8) -> (r: String)
    ensures
        r@ == upper_hex(b),
{
    let high: u8 = b / 16;
    let low: u8 = b % 16;
    let mut r: String = String::new();
    let first: u8 = if high < 10 {
        high + 48
    } else {
        high + 55
    };
    let second: u8 = if low < 10 {
        low + 48
    } else {
        low + 55
    };
    r.push(first as char);
    r.push(second as char);
    assert(r@ =~= upper_hex(b));
    r
}

/// Bytes as a list in brackets.
fn byte_list_of(bytes: &Vec<u8>) -> (r: String)
    ensures
        r@ == byte_list(bytes@),
{
    let mut items: Vec<String> = Vec::new();
    let mut i: usize = 0;
    while i < bytes.len()
        invariant
            i <= bytes@.len(),
            items@.len() == i,
            forall|j: int| 0 <= j < i ==> (#[trigger] items@[j])@ == upper_hex(bytes@[j]),
        decreases bytes@.len() - i,
    {
        items.push(upper_hex_of(bytes[i]));
        i += 1;
    }
    assert(texts(items@) =~= bytes@.map_values(|b: u8| upper_hex(b)));
    let mut r: String = "[".to_owned();
    r.append(join(&items, ", ").as_str());
    r.append("]");
    r
}

impl ViewError {
    /// The message for the client.
    pub open spec fn text(self) -> Seq<char> {
        match self {
            ViewError::NotPic { first } => "Not a PIC file (magic mismatch). First bytes: "@
                + byte_list(first@),
            ViewError::DecodeFailed { reason } => "PIC decode failed: "@ + reason@,
            ViewError::BufferMismatch => "RGB buffer size mismatch"@,
            ViewError::EncodeFailed { reason } => reason@,
            ViewError::TooLarge => "Picture too large"@,
        }
    }

    /// The message for the client.
    pub fn message(&self) -> (r: String)
        ensures
            r@ == self.text(),
    {
        let mut m: String = String::new();
        match self {
            ViewError::NotPic { first } => {
                m.append("Not a PIC file (magic mismatch). First bytes: ");
                m.append(byte_list_of(first).as_str());
            },
            ViewError::DecodeFailed { reason } => {
                m.append("PIC decode failed: ");
                m.append(reason.as_str());
            },
            ViewError::BufferMismatch => {
                m.append("RGB buffer size mismatch");
            },
            ViewError::EncodeFailed { reason } => {
                m.append(reason.as_str());
            },
            ViewError::TooLarge => {
                m.append("Picture too large");
            },
        }
        m
    }
}

/// The bytes start with `PIC`.
pub open spec fn has_magic(bytes: Seq<u8>) -> bool {
    bytes.len() >= 3 && bytes[0] == 80 && bytes[1] == 73 && bytes[2] == 67
}

/// The first bytes of a file, eight at most.
pub open spec fn first_bytes(bytes: Seq<u8>) -> Seq<u8> {
    if bytes.len() > 8 {
        bytes.take(8)
    } else {
        bytes
    }
}

/// Refuses a file that does not start with `PIC`.
pub fn check_magic(bytes: &[u8]) -> (r: Result<(), ViewError>)
    ensures
        match r {
            Ok(_) => has_magic(bytes@),
            Err(e) => {
                &&& !has_magic(bytes@)
                &&& e matches ViewError::NotPic { first }
                &&& first@ == first_bytes(bytes@)
            },
        },
{
    if bytes.len() >= 3 && bytes[0] == 80 && bytes[1] == 73 && bytes[2] == 67 {
        return Ok(());
    }
    let n: usize = if bytes.len() > 8 {
        8
    } else {
        bytes.len()
    };
    let mut first: Vec<u8> = Vec::new();
    let mut i: usize = 0;
    while i < n
        invariant
            i <= n <= bytes@.len(),
            first@ == bytes@.take(i as int),
        decreases n - i,
    {
        first.push(bytes[i]);
        assert(bytes@.take(i + 1) == bytes@.take(i as int).push(bytes@[i as int]));
        i += 1;
    }
    assert(first@ =~= first_bytes(bytes@));
    Err(ViewError::NotPic { first })
}

/// Where a picture comes from: the image, the partition where one was named, and the
/// file.
pub open spec fn citation(
    image_path: Seq<char>,
    partition: Option<usize>,
    file_path: Seq<char>,
) -> Seq<char> {
    match partition {
        Some(p) => image_path + ":"@ + decimal(p as nat) + ":"@ + file_path,
        None => image_path + ":"@ + file_path,
    }
}

/// Where a picture comes from.
pub fn citation_of(image_path: &str, partition: Option<usize>, file_path: &str) -> (r: String)
    ensures
        r@ == citation(image_path@, partition, file_path@),
{
    let mut r: String = image_path.to_owned();
    r.append(":");
    match partition {
        Some(p) => {
            r.append(decimal_of(p as u64).as_str());
            r.append(":");
        },
        None => {},
    }
    r.append(file_path);
    r
}

/// The size to which a picture is shrunk, where it is wider than allowed.
pub open spec fn shrunk_size(width: u32, height: u32, max_width: Option<u32>) -> Option<(nat, nat)> {
    match max_width {
        Some(limit) => if width > limit {
            Some((limit as nat, shrunk_height(width, height, limit)))
        } else {
            None
        },
        None => None,
    }
}

/// A picture of `w` times `h` pixels has the proportions of one of `width` times `height`:
/// within a row and eight parts in two to the 24th, `h` is `height * w / width` rounded
/// down. For pictures of ordinary size it is so within a row and a sixty-fourth of one.
pub open spec fn is_in_proportion(width: u32, height: u32, w: u32, h: u32) -> bool {
    &&& 0x100_0000 * (h * width) <= 0x100_0008 * (height * w)
    &&& 0xff_fff8 * (height * w) <= 0x100_0000 * ((h + 1) * width)
    &&& width < 0x1_0000 && height < 0x1_0000 ==> {
        &&& 64 * (h * width) <= 64 * (height * w) + width
        &&& 64 * (height * w) <= 64 * ((h + 1) * width) + width
    }
}

/// The size to which a picture is shrunk, where it is wider than allowed.
pub fn shrunk_size_of(width: u32, height: u32, max_width: Option<u32>) -> (r: Option<(u32, u32)>)
    ensures
        match r {
            Some((w, h)) => shrunk_size(width, height, max_width) == Some((w as nat, h as nat)),
            None => shrunk_size(width, height, max_width) is None,
        },
        r matches Some((w, h)) ==> max_width == Some(w) && w < width && is_in_proportion(
            width,
            height,
            w,
            h,
        ),
        r is None ==> (max_width matches Some(limit) ==> limit >= width),
{
    proof {
        law_shrunk_sizes_are_in_proportion(width, height, max_width);
    }
    match max_width {
        Some(limit) => {
            if width > limit {
                Some((limit, shrunk_height_of(width, height, limit)))
            } else {
                None
            }
        },
        None => None,
    }
}

/// The number of bytes of a picture's pixels.
pub open spec fn pixel_bytes(width: nat, height: nat) -> nat {
    3 * (width * height)
}

/// The widest rows: with a byte for the filter of the PNG, the bytes of one can be counted
/// in 32 bits.
pub const MAX_ROW_WIDTH: u32 = 0x5555_5554;

/// A picture of this size can be worked on in memory. The resampler holds four singles
/// for each pixel. The PNG encoder holds up to four bytes, one and a half times as many
/// where they do not compress, in buffers that double as they grow.
pub open spec fn workable(width: nat, height: nat) -> bool {
    &&& width <= MAX_ROW_WIDTH
    &&& 16 * (width * height) <= isize::MAX
}

/// What the `image` crate makes of pixels when it writes them as PNG: the file, or the
/// message of its error.
pub uninterp spec fn png_file(width: u32, height: u32, rgb: Seq<u8>) -> Result<
    Seq<u8>,
    Seq<char>,
>;

/// The base64 digit for a value below 64.
pub open spec fn base64_digit(v: int) -> char {
    if v < 26 {
        (v + 65) as char
    } else if v < 52 {
        (v + 71) as char
    } else if v < 62 {
        (v - 4) as char
    } else if v == 62 {
        '+'
    } else {
        '/'
    }
}

/// The byte at a position, or zero behind the end.
pub open spec fn byte_or_zero(bytes: Seq<u8>, i: int) -> int {
    if i < bytes.len() {
        bytes[i] as int
    } else {
        0
    }
}

/// The `i`-th six bits of some bytes.
pub open spec fn sextet(bytes: Seq<u8>, i: int) -> int {
    let at = 3 * (i / 4);
    if i % 4 == 0 {
        byte_or_zero(bytes, at) / 4
    } else if i % 4 == 1 {
        byte_or_zero(bytes, at) % 4 * 16 + byte_or_zero(bytes, at + 1) / 16
    } else if i % 4 == 2 {
        byte_or_zero(bytes, at + 1) % 16 * 4 + byte_or_zero(bytes, at + 2) / 64
    } else {
        byte_or_zero(bytes, at + 2) % 64
    }
}

/// The standard base64 text of some bytes: four digits for three bytes, with `=` for
/// every digit that has no bit of them.
pub open spec fn base64_text(bytes: Seq<u8>) -> Seq<char> {
    Seq::new(
        4 * ((bytes.len() + 2) / 3),
        |i: int|
            if i % 4 >= 2 && 3 * (i / 4) + i % 4 - 1 >= bytes.len() {
                '='
            } else {
                base64_digit(sextet(bytes, i))
            },
    )
}

/// `out` is a picture of the new size that the `image` crate may make of `rgb`, a
/// picture of the old size, with the Lanczos filter.
pub uninterp spec fn resampled(
    width: u32,
    height: u32,
    rgb: Seq<u8>,
    new_width: u32,
    new_height: u32,
    out: Seq<u8>,
) -> bool;

/// The sizes that pictures are shrunk from are below this. A PIC file stores its sizes in
/// 16 bits, so every one of them is; and every pixel then has a position of its own in
/// single precision, with room to spare.
pub const SHRINKABLE_SIZE: u32 = 0x1_0000;

/// `image::imageops::resize` of an RGB picture with the Lanczos filter: a picture of
/// the new size, made of the old one. Its pixels are computed with `f32::sin`, whose
/// precision is not the same on every platform, so they stand in a relation to the old
/// ones and are not said to be a function of them. Beyond the bounds, the pixels that
/// it averages can all have the weight zero, and then it panics.
#[verifier::external_body]
fn resize_lanczos(
    width: u32,
    height: u32,
    rgb: Vec<u8>,
    new_width: u32,
    new_height: u32,
) -> (r: Vec<u8>)
    requires
        rgb@.len() >= pixel_bytes(width as nat, height as nat),
        workable(width as nat, height as nat),
        width < SHRINKABLE_SIZE,
        height < SHRINKABLE_SIZE,
        new_width <= width,
        new_height <= height,
    ensures
        r@.len() == pixel_bytes(new_width as nat, new_height as nat),
        resampled(
            width,
            height,
            rgb@.take(pixel_bytes(width as nat, height as nat) as int),
            new_width,
            new_height,
            r@,
        ),
{
    let picture = image::RgbImage::from_raw(width, height, rgb).unwrap();
    image::imageops::resize(
        &picture,
        new_width,
        new_height,
        image::imageops::FilterType::Lanczos3,
    ).into_raw()
}

/// `image::ImageBuffer::write_to` in the PNG format, of an RGB picture made by
/// `from_raw`: a function of the size and the pixels that fill it, given a name. Rows
/// beyond the bound can overflow the 32-bit counter of the compressor.
#[verifier::external_body]
fn write_png(width: u32, height: u32, rgb: Vec<u8>) -> (r: Result<Vec<u8>, String>)
    requires
        rgb@.len() >= pixel_bytes(width as nat, height as nat),
        workable(width as nat, height as nat),
    ensures
        match r {
            Ok(file) => png_file(
                width,
                height,
                rgb@.take(pixel_bytes(width as nat, height as nat) as int),
            ) == Ok::<Seq<u8>, Seq<char>>(file@),
            Err(message) => png_file(
                width,
                height,
                rgb@.take(pixel_bytes(width as nat, height as nat) as int),
            ) == Err::<Seq<u8>, Seq<char>>(message@),
        },
{
    let picture = image::RgbImage::from_raw(width, height, rgb).unwrap();
    let mut file = Vec::new();
    picture
        .write_to(&mut std::io::Cursor::new(&mut file), image::ImageFormat::Png)
        .map_err(|e| e.to_string())?;
    Ok(file)
}

/// `base64::engine::general_purpose::STANDARD.encode`: the bytes as base64 text with
/// padding. The bound keeps the text within what can be allocated.
#[verifier::external_body]
fn encode_base64(bytes: &Vec<u8>) -> (r: String)
    requires
        bytes@.len() <= isize::MAX / 2,
    ensures
        r@ == base64_text(bytes@),
{
    base64::engine::general_purpose::STANDARD.encode(bytes)
}

/// `r` is what becomes of the pixels: the base64 text of their PNG, or why there is
/// none.
pub open spec fn is_rendering(
    width: u32,
    height: u32,
    pixels: Seq<u8>,
    r: Result<Seq<char>, ViewError>,
) -> bool {
    match png_file(width, height, pixels) {
        Ok(file) => if file.len() <= isize::MAX / 2 {
            r == Ok::<Seq<char>, ViewError>(base64_text(file))
        } else {
            r == Err::<Seq<char>, ViewError>(ViewError::TooLarge)
        },
        Err(message) => r matches Err(ViewError::EncodeFailed { reason }) && reason@ == message,
    }
}

/// The text of a result.
pub open spec fn text_of_result(r: Result<String, ViewError>) -> Result<Seq<char>, ViewError> {
    match r {
        Ok(text) => Ok(text@),
        Err(e) => Err(e),
    }
}

/// Writes pixels as the base64 text of a PNG.
pub fn encode_view(width: u32, height: u32, rgb: Vec<u8>) -> (r: Result<String, ViewError>)
    requires
        rgb@.len() >= pixel_bytes(width as nat, height as nat),
        workable(width as nat, height as nat),
    ensures
        is_rendering(
            width,
            height,
            rgb@.take(pixel_bytes(width as nat, height as nat) as int),
            text_of_result(r),
        ),
{
    match write_png(width, height, rgb) {
        Ok(file) => {
            if file.len() <= (isize::MAX / 2) as usize {
                Ok(encode_base64(&file))
            } else {
                Err(ViewError::TooLarge)
            }
        },
        Err(reason) => Err(ViewError::EncodeFailed { reason }),
    }
}

impl PicImage {
    /// The decoder's pixels fill the picture.
    pub open spec fn is_filled(self) -> bool {
        self.rgb@.len() >= pixel_bytes(self.width as nat, self.height as nat)
    }

    /// The picture can be worked on in memory, and where it is shrunk, it is not too
    /// large for that.
    pub open spec fn is_workable(self, max_width: Option<u32>) -> bool {
        &&& workable(self.width as nat, self.height as nat)
        &&& shrunk_size(self.width, self.height, max_width) is Some ==> self.width
            < SHRINKABLE_SIZE && self.height < SHRINKABLE_SIZE
    }

    /// `pixels` are what is shown of the picture at the given size: its own where it is
    /// not shrunk, else what they are resampled to.
    pub open spec fn shows(
        self,
        max_width: Option<u32>,
        width: u32,
        height: u32,
        pixels: Seq<u8>,
    ) -> bool {
        match shrunk_size(self.width, self.height, max_width) {
            Some(size) => {
                &&& size == (width as nat, height as nat)
                &&& pixels.len() == pixel_bytes(width as nat, height as nat)
                &&& resampled(
                    self.width,
                    self.height,
                    self.rgb@.take(pixel_bytes(self.width as nat, self.height as nat) as int),
                    width,
                    height,
                    pixels,
                )
            },
            None => {
                &&& width == self.width
                &&& height == self.height
                &&& pixels == self.rgb@.take(
                    pixel_bytes(self.width as nat, self.height as nat) as int,
                )
            },
        }
    }

    /// What the client is told of the picture.
    pub open spec fn is_described_by(self, meta: ViewImageMetadata, source: Seq<char>) -> bool {
        &&& meta.format@ == "PIC"@
        &&& meta.width == self.width
        &&& meta.height == self.height
        &&& meta.bit_depth == self.bit_depth
        &&& meta.mode == self.mode
        &&& meta.comment@ == self.comment@
        &&& meta.source@ == source
    }
}

/// The picture of a rendering, without what is told of it.
pub open spec fn picture_of(r: Result<(ViewImageMetadata, String), ViewError>) -> Result<
    Seq<char>,
    ViewError,
> {
    match r {
        Ok((_, text)) => Ok(text@),
        Err(e) => Err(e),
    }
}

/// The product of two sizes of a picture.
fn area(width: u32, height: u32) -> (r: u128)
    ensures
        r == width as nat * height as nat,
        r <= 0xffff_ffff * 0xffff_ffff,
{
    proof {
        let (x, y) = (width as int, height as int);
        assert(0 <= x * y <= 0xffff_ffff * 0xffff_ffff) by (nonlinear_arith)
            requires
                0 <= x <= 0xffff_ffff,
                0 <= y <= 0xffff_ffff,
        ;
    }
    width as u128 * height as u128
}

/// Tells whether the decoder's pixels fill the picture.
fn fills(pic: &PicImage) -> (r: bool)
    ensures
        r == pic.is_filled(),
{
    pic.rgb.len() as u128 >= 3 * area(pic.width, pic.height)
}

/// Tells whether a decoded picture can be rendered: where it is filled, there is room
/// to work on it, and it is not too large to be shrunk as far as asked for.
pub fn can_render(pic: &PicImage, max_width: Option<u32>) -> (r: bool)
    ensures
        r == (pic.is_filled() ==> pic.is_workable(max_width)),
{
    let has_room: bool = pic.width <= MAX_ROW_WIDTH && 16 * area(pic.width, pic.height)
        <= isize::MAX as u128;
    let shrinks: bool = match max_width {
        Some(limit) => pic.width > limit,
        None => false,
    };
    let shrinkable: bool = pic.width < SHRINKABLE_SIZE && pic.height < SHRINKABLE_SIZE;
    !fills(pic) || (has_room && (!shrinks || shrinkable))
}

/// Shows a decoded picture: what it is, in its own size, and the picture itself, no
/// wider than allowed, as the base64 text of a PNG. A picture that does not have its
/// pixels, or that is too large to be worked on, is refused.
pub fn render(pic: PicImage, max_width: Option<u32>, source: String) -> (r: Result<
    (ViewImageMetadata, String),
    ViewError,
>)
    ensures
        !pic.is_filled() ==> r == Err::<(ViewImageMetadata, String), ViewError>(
            ViewError::BufferMismatch,
        ),
        pic.is_filled() && !pic.is_workable(max_width) ==> r == Err::<
            (ViewImageMetadata, String),
            ViewError,
        >(ViewError::TooLarge),
        pic.is_filled() && pic.is_workable(max_width) ==> exists|width: u32, height: u32, pixels: Seq<u8>|
            {
                &&& #[trigger] pic.shows(max_width, width, height, pixels)
                &&& is_rendering(width, height, pixels, picture_of(r))
            },
        r matches Ok((meta, _)) ==> pic.is_described_by(meta, source@),
{
    if !fills(&pic) {
        return Err(ViewError::BufferMismatch);
    }
    if !can_render(&pic, max_width) {
        return Err(ViewError::TooLarge);
    }
    let (width, height): (u32, u32) = (pic.width, pic.height);
    let ghost whole = pic;
    let shrunk: Option<(u32, u32)> = shrunk_size_of(width, height, max_width);
    let encoded: Result<String, ViewError> = match shrunk {
        Some((w, h)) => {
            proof {
                law_shrinking_does_not_enlarge(width, height, w);
            }
            let pixels: Vec<u8> = resize_lanczos(width, height, pic.rgb, w, h);
            proof {
                let (x, y, z, g) = (w as int, width as int, h as int, height as int);
                assert(16 * (x * z) <= 16 * (y * g)) by (nonlinear_arith)
                    requires
                        0 <= x <= y,
                        0 <= z <= g,
                ;
                assert(pixels@.take(pixels@.len() as int) == pixels@);
                assert(whole.shows(max_width, w, h, pixels@));
            }
            encode_view(w, h, pixels)
        },
        None => {
            proof {
                let n = pixel_bytes(width as nat, height as nat) as int;
                assert(whole.shows(max_width, width, height, whole.rgb@.take(n)));
            }
            encode_view(width, height, pic.rgb)
        },
    };
    match encoded {
        Ok(text) => Ok(
            (
                ViewImageMetadata {
                    format: "PIC".to_owned(),
                    width,
                    height,
                    bit_depth: pic.bit_depth,
                    mode: pic.mode,
                    comment: pic.comment,
                    source,
                },
                text,
            ),
        ),
        Err(e) => Err(e),
    }
}

/// A picture that is not wider than allowed is shown as it is, pixel by pixel.
pub proof fn law_narrow_pictures_are_untouched(
    pic: PicImage,
    max_width: Option<u32>,
    width: u32,
    height: u32,
    pixels: Seq<u8>,
)
    requires
        max_width matches Some(limit) ==> pic.width <= limit,
        pic.shows(max_width, width, height, pixels),
    ensures
        width == pic.width,
        height == pic.height,
        pixels == pic.rgb@.take(pixel_bytes(pic.width as nat, pic.height as nat) as int),
{
}

/// Whatever is shown is no wider than allowed, and no larger than the picture. Heights
/// that single precision rounds up are left out: they have more than 24 bits.
pub proof fn law_shown_pictures_fit(
    pic: PicImage,
    max_width: Option<u32>,
    width: u32,
    height: u32,
    pixels: Seq<u8>,
)
    requires
        single(pic.height as nat) <= pic.height,
        pic.shows(max_width, width, height, pixels),
    ensures
        max_width matches Some(limit) ==> width <= limit,
        width <= pic.width,
        height <= pic.height,
{
    if let Some(limit) = max_width {
        if pic.width > limit {
            law_shrinking_does_not_enlarge(pic.width, pic.height, limit);
        }
    }
}

/// A picture is shrunk exactly where it is wider than allowed, to the width allowed and in
/// proportion.
pub proof fn law_shrunk_sizes_are_in_proportion(width: u32, height: u32, max_width: Option<u32>)
    ensures
        shrunk_size(width, height, max_width) is Some <==> (max_width matches Some(limit) && width
            > limit),
        shrunk_size(width, height, max_width) matches Some((w, h)) ==> {
            &&& max_width == Some(w as u32)
            &&& w <= u32::MAX
            &&& h <= u32::MAX
            &&& is_in_proportion(width, height, w as u32, h as u32)
        },
{
    if let Some(limit) = max_width {
        if limit < width {
            law_shrinking_keeps_all_proportions(width, height, limit);
            if width < 0x1_0000 && height < 0x1_0000 {
                law_shrinking_keeps_the_proportions(width, height, limit);
            }
        }
    }
}

/// What is shown of a picture has the picture's proportions: where it is narrower than the
/// picture `W` times `H`, it has just the width allowed, `w`, and its height is `H * w / W`
/// rounded down, within a row and a sixty-fourth of one.
pub proof fn law_shown_pictures_keep_their_proportions(
    pic: PicImage,
    max_width: Option<u32>,
    width: u32,
    height: u32,
    pixels: Seq<u8>,
)
    requires
        pic.shows(max_width, width, height, pixels),
        pic.width < 0x1_0000,
        pic.height < 0x1_0000,
    ensures
        max_width matches Some(limit) ==> (pic.width > limit ==> width == limit),
        width < pic.width ==> {
            &&& 64 * (height * pic.width) <= 64 * (pic.height * width) + pic.width
            &&& 64 * (pic.height * width) <= 64 * ((height + 1) * pic.width) + pic.width
        },
        width >= pic.width ==> width == pic.width && height == pic.height,
{
    law_shrunk_sizes_are_in_proportion(pic.width, pic.height, max_width);
}

/// A PIC file is told by its first three bytes, 0x50, 0x49 and 0x43.
pub proof fn law_magic_is_the_first_three_bytes(bytes: Seq<u8>)
    ensures
        has_magic(bytes) <==> seq![0x50u8, 0x49u8, 0x43u8].is_prefix_of(bytes),
{
    let magic = seq![0x50u8, 0x49u8, 0x43u8];
    if magic.is_prefix_of(bytes) {
        let front = bytes.subrange(0, 3);
        assert(front =~= magic);
        assert(bytes[0] == front[0]);
        assert(bytes[1] == front[1]);
        assert(bytes[2] == front[2]);
    }
    if has_magic(bytes) {
        assert(bytes.subrange(0, 3) =~= magic);
    }
}

/// The first bytes are a prefix of eight, or the whole of what is shorter.
pub proof fn law_first_bytes_are_a_prefix(bytes: Seq<u8>)
    ensures
        first_bytes(bytes).is_prefix_of(bytes),
        first_bytes(bytes).len() == if bytes.len() < 8 {
            bytes.len()
        } else {
            8
        },
{
}

/// The value of an upper-case hexadecimal digit.
pub open spec fn upper_hex_value(c: char) -> int {
    if c as u32 <= 57 {
        c as u32 - 48
    } else {
        c as u32 - 55
    }
}

/// Bytes are listed in brackets, with a comma and a space between them, each as two digits
/// of `0` to `9` and `A` to `F` that tell it.
pub proof fn law_bytes_are_listed(bytes: Seq<u8>, last: u8)
    ensures
        byte_list(Seq::empty()) == "[]"@,
        byte_list(seq![last]) == "["@ + upper_hex(last) + "]"@,
        bytes.len() > 0 ==> byte_list(bytes.push(last)) == byte_list(bytes).drop_last() + ", "@
            + upper_hex(last) + "]"@,
        upper_hex(last).len() == 2,
        16 * upper_hex_value(upper_hex(last)[0]) + upper_hex_value(upper_hex(last)[1]) == last,
        forall|i: int|
            0 <= i < 2 ==> {
                let code = (#[trigger] upper_hex(last)[i]) as u32;
                (48 <= code && code <= 57) || (65 <= code && code <= 70)
            },
{
    reveal_strlit("[");
    reveal_strlit("]");
    reveal_strlit("[]");
    let f = |b: u8| upper_hex(b);
    let items = bytes.map_values(f);
    law_joining(items, upper_hex(last), ", "@);
    assert(Seq::<u8>::empty().map_values(f) =~= Seq::<Seq<char>>::empty());
    assert(byte_list(Seq::empty()) =~= "[]"@);
    assert(seq![last].map_values(f) =~= seq![upper_hex(last)]);
    assert(bytes.push(last).map_values(f) =~= items.push(upper_hex(last)));
    if bytes.len() > 0 {
        assert(byte_list(bytes).drop_last() =~= "["@ + joined(items, ", "@));
        assert(byte_list(bytes.push(last)) =~= byte_list(bytes).drop_last() + ", "@ + upper_hex(
            last,
        ) + "]"@);
    }
}

/// A citation is the image, the number of the partition where there is one, and the file,
/// with colons between them.
pub proof fn law_citations(image_path: Seq<char>, p: usize, file_path: Seq<char>)
    ensures
        citation(image_path, None, file_path) == image_path + ":"@ + file_path,
        citation(image_path, Some(p), file_path) == citation(
            citation(image_path, None, decimal(p as nat)),
            None,
            file_path,
        ),
{
}

/// What the client is told of each error.
pub proof fn law_view_messages(first: Vec<u8>, reason: String)
    ensures
        (ViewError::NotPic { first }).text() == "Not a PIC file (magic mismatch). First bytes: "@
            + byte_list(first@),
        (ViewError::DecodeFailed { reason }).text() == "PIC decode failed: "@ + reason@,
        ViewError::BufferMismatch.text() == "RGB buffer size mismatch"@,
        (ViewError::EncodeFailed { reason }).text() == reason@,
        ViewError::TooLarge.text() == "Picture too large"@,
{
}

/// A picture is filled by three bytes for each pixel, and more do no harm.
pub proof fn law_three_bytes_fill_a_pixel(pic: PicImage)
    ensures
        pic.is_filled() <==> pic.width * pic.height * 3 <= pic.rgb@.len(),
{
    let (x, y) = (pic.width as int, pic.height as int);
    assert(x * y * 3 == 3 * (x * y)) by (nonlinear_arith);
}

/// Every picture that a PIC file can hold is worked on where memory allows sixteen bytes
/// for each of its pixels, shrunk or not.
pub proof fn law_ordinary_pictures_are_workable(pic: PicImage, max_width: Option<u32>)
    requires
        pic.width < 0x1_0000,
        pic.height < 0x1_0000,
    ensures
        pic.is_workable(max_width) <==> pic.width * pic.height * 16 <= isize::MAX,
{
    let (x, y) = (pic.width as int, pic.height as int);
    assert(x * y * 16 == 16 * (x * y)) by (nonlinear_arith);
}

/// A picture that is not shrunk is worked on up to rows of 2 to the 32nd bytes; one that is
/// shrunk, only below 2 to the 16th in width and height.
pub proof fn law_sizes_that_are_worked_on(pic: PicImage, max_width: Option<u32>)
    ensures
        pic.is_workable(max_width) <==> {
            &&& 3 * pic.width + 1 < 0x1_0000_0000 - 2
            &&& pic.width * pic.height * 16 <= isize::MAX
            &&& (max_width matches Some(limit) && pic.width > limit) ==> (pic.width <= 65535
                && pic.height <= 65535)
        },
{
    let (x, y) = (pic.width as int, pic.height as int);
    assert(x * y * 16 == 16 * (x * y)) by (nonlinear_arith);
}

/// The client is told the picture's own sizes, depth, mode and comment, and the source.
pub proof fn law_metadata_is_that_of_the_picture(
    pic: PicImage,
    meta: ViewImageMetadata,
    source: Seq<char>,
)
    requires
        pic.is_described_by(meta, source),
    ensures
        meta.format@ == "PIC"@,
        (meta.width, meta.height) == (pic.width, pic.height),
        (meta.bit_depth, meta.mode) == (pic.bit_depth, pic.mode),
        meta.comment@ == pic.comment@,
        meta.source@ == source,
{
}

/// A picture becomes the base64 text of its PNG, or its encoder's error.
pub proof fn law_pictures_become_png(
    width: u32,
    height: u32,
    pixels: Seq<u8>,
    r: Result<Seq<char>, ViewError>,
)
    requires
        is_rendering(width, height, pixels, r),
    ensures
        png_file(width, height, pixels) matches Ok(file) ==> (2 * file.len() < isize::MAX ==> r
            == Ok::<Seq<char>, ViewError>(base64_text(file))),
        png_file(width, height, pixels) matches Err(message) ==> (r matches Err(
            ViewError::EncodeFailed { reason },
        ) && reason@ == message),
        r matches Ok(text) ==> (png_file(width, height, pixels) matches Ok(file) && text
            == base64_text(file)),
{
}

/// The value of a base64 digit.
pub open spec fn base64_value(c: char) -> int {
    let code = c as u32;
    if code >= 97 {
        code - 71
    } else if code >= 65 {
        code - 65
    } else if code >= 48 {
        code + 4
    } else if code == 43 {
        62
    } else {
        63
    }
}

/// Four base64 digits tell three bytes: as numbers, they are the same.
pub proof fn law_base64_tells_the_bytes(bytes: Seq<u8>, k: int)
    requires
        0 <= k,
        3 * k + 3 <= bytes.len(),
    ensures
        base64_text(bytes).len() == 4 * ((bytes.len() + 2) / 3),
        ({
            let text = base64_text(bytes);
            let v = |i: int| base64_value(text[4 * k + i]);
            262144 * v(0) + 4096 * v(1) + 64 * v(2) + v(3) == 65536 * bytes[3 * k] + 256 * bytes[3
                * k + 1] + bytes[3 * k + 2]
        }),
{
    let i = 4 * k;
    assert(i / 4 == k && (i + 1) / 4 == k && (i + 2) / 4 == k && (i + 3) / 4 == k);
    assert(i % 4 == 0 && (i + 1) % 4 == 1 && (i + 2) % 4 == 2 && (i + 3) % 4 == 3);
    let text = base64_text(bytes);
    let (a, b, c) = (bytes[3 * k] as int, bytes[3 * k + 1] as int, bytes[3 * k + 2] as int);
    assert(text[i] == base64_digit(a / 4));
    assert(text[i + 1] == base64_digit(a % 4 * 16 + b / 16));
    assert(text[i + 2] == base64_digit(b % 16 * 4 + c / 64));
    assert(text[i + 3] == base64_digit(c % 64));
    lemma_base64_digit(a / 4);
    lemma_base64_digit(a % 4 * 16 + b / 16);
    lemma_base64_digit(b % 16 * 4 + c / 64);
    lemma_base64_digit(c % 64);
}

/// A digit tells its value.
proof fn lemma_base64_digit(v: int)
    requires
        0 <= v < 64,
    ensures
        base64_value(base64_digit(v)) == v,
{
}

/// What is shown of a picture that is shrunk is resampled from the picture's own pixels, and
/// fills its size with three bytes for each pixel.
pub proof fn law_shrunk_pictures_come_of_their_own_pixels(
    pic: PicImage,
    max_width: Option<u32>,
    width: u32,
    height: u32,
    pixels: Seq<u8>,
)
    requires
        pic.shows(max_width, width, height, pixels),
        max_width matches Some(limit) && pic.width > limit,
    ensures
        pixels.len() == width * height * 3,
        resampled(
            pic.width,
            pic.height,
            pic.rgb@.take(pic.width * pic.height * 3),
            width,
            height,
            pixels,
        ),
{
    let (x, y) = (pic.width as int, pic.height as int);
    assert(x * y * 3 == 3 * (x * y)) by (nonlinear_arith);
    let (u, v) = (width as int, height as int);
    assert(u * v * 3 == 3 * (u * v)) by (nonlinear_arith);
    assert(width < pic.width);
}

/// The text of a result is that of its own text, and an error stays the error.
pub proof fn law_results_keep_their_texts(meta: ViewImageMetadata, text: String, e: ViewError)
    ensures
        picture_of(Ok((meta, text))) == Ok::<Seq<char>, ViewError>(text@),
        picture_of(Err(e)) == Err::<Seq<char>, ViewError>(e),
        text_of_result(Ok(text)) == Ok::<Seq<char>, ViewError>(text@),
        text_of_result(Err(e)) == Err::<Seq<char>, ViewError>(e),
{
}

} // verus!
