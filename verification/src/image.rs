//! Turning Windows bitmaps into PNG, and back.
//!
//! Windows puts images on the clipboard as device-independent bitmaps. Almost
//! everything else asks for `image/png`, which is why an image copied on one
//! machine so often cannot be pasted on another: the two never agree on a
//! format, and nothing converts between them.
//!
//! The conversion is plain arithmetic over bytes. The awkward parts: bitmaps
//! are stored bottom row first, rows are padded, and the fourth byte of a
//! 32-bit pixel may or may not mean anything.

use vstd::prelude::*;

use crate::bytes::{add_le16, add_le32, le16, le32, number16, number32, read16, read32};
use crate::clipboard::{unusable, ClipboardError, ClipboardErrorView};
use crate::image_laws::a_picture_survives_the_trip_out_and_back;
use crate::text::{add_text, chars_of, decimal, decimal_of, text_of};

verus! {

/// The fixed part of a bitmap header, which every version begins with.
pub const HEADER_V3: usize = 40;

/// A header whose masks say where the alpha lives.
pub const HEADER_V5: usize = 124;

pub const BI_RGB: u32 = 0;

pub const BI_BITFIELDS: u32 = 3;

// --- what a bitmap header says ---------------------------------------------------

/// What a bitmap header says about the image.
pub struct Info {
    pub width: u32,
    pub height: u32,
    /// Bitmaps are stored bottom row first unless the height says otherwise.
    pub top_down: bool,
    pub bits_per_pixel: u16,
    /// Where the pixels start, past the header and any masks or palette.
    pub pixels_at: usize,
}

/// The signed number with the same bits.
pub open spec fn signed(n: int) -> int {
    if n < 0x8000_0000 {
        n
    } else {
        n - 0x1_0000_0000
    }
}

pub open spec fn magnitude(n: int) -> int {
    if n < 0 {
        -n
    } else {
        n
    }
}

/// Where the pixels start. Three colour masks follow a v3 header when the
/// format is `BI_BITFIELDS`; later headers carry the masks inside themselves.
pub open spec fn pixels_start(dib: Seq<u8>) -> int {
    let header = number32(dib, 0);
    let masks: int = if number32(dib, 16) == BI_BITFIELDS && header == HEADER_V3 {
        12
    } else {
        0
    };
    header + masks + 4 * number32(dib, 32)
}

/// What the header says, or why the bitmap cannot be used.
pub open spec fn header_info(dib: Seq<u8>) -> Result<Info, Seq<char>> {
    let bits = number16(dib, 14);
    if dib.len() < HEADER_V3 {
        Err("it is shorter than a header"@)
    } else if number32(dib, 0) < HEADER_V3 || number32(dib, 0) > dib.len() {
        Err("the header size makes no sense"@)
    } else if signed(number32(dib, 4)) <= 0 || signed(number32(dib, 8)) == 0 {
        Err("it has no area"@)
    } else if bits != 24 && bits != 32 {
        Err(decimal(bits as nat) + " bits per pixel is not one of the forms this reads"@)
    } else if number32(dib, 16) != BI_RGB && number32(dib, 16) != BI_BITFIELDS {
        Err("it is compressed in a form this does not read"@)
    } else if pixels_start(dib) >= dib.len() {
        Err("it contains no pixels"@)
    } else {
        Ok(
            (Info {
                width: number32(dib, 4) as u32,
                height: magnitude(signed(number32(dib, 8))) as u32,
                top_down: signed(number32(dib, 8)) < 0,
                bits_per_pixel: bits as u16,
                pixels_at: pixels_start(dib) as usize,
            }),
        )
    }
}

pub open spec fn complaint(why: Seq<char>) -> ClipboardErrorView {
    ClipboardErrorView::Display("the bitmap on the clipboard is unusable: "@ + why)
}

fn bad(why: &str) -> (r: ClipboardError)
    ensures
        r.deep_view() == complaint(why@),
{
    unusable("the bitmap on the clipboard is unusable: ", why)
}

/// Read a bitmap header.
///
/// Only the truecolour forms. A palette image would need its table read as
/// well, and getting that wrong produces an image in the wrong colours rather
/// than an error, which is worse than declining.
pub fn parse_header(dib: &[u8]) -> (r: Result<Info, ClipboardError>)
    ensures
        match header_info(dib@) {
            Ok(info) => r == Ok::<Info, ClipboardError>(info),
            Err(why) => r is Err && r->Err_0.deep_view() == complaint(why),
        },
{
    let len: usize = dib.len();
    if len < HEADER_V3 {
        return Err(bad("it is shorter than a header"));
    }
    let header_size: u32 = read32(dib, 0);
    if (header_size as usize) < HEADER_V3 || header_size as usize > len {
        return Err(bad("the header size makes no sense"));
    }
    let width: u32 = read32(dib, 4);
    let raw_height: u32 = read32(dib, 8);
    let bits_per_pixel: u16 = read16(dib, 14);
    let compression: u32 = read32(dib, 16);
    let palette_entries: u32 = read32(dib, 32);
    if width == 0 || width >= 0x8000_0000 || raw_height == 0 {
        return Err(bad("it has no area"));
    }
    if bits_per_pixel != 24 && bits_per_pixel != 32 {
        let mut why: Vec<char> = decimal_of(bits_per_pixel as u64);
        add_text(&mut why, " bits per pixel is not one of the forms this reads");
        let why: String = text_of(&why);
        return Err(bad(why.as_str()));
    }
    if compression != BI_RGB && compression != BI_BITFIELDS {
        return Err(bad("it is compressed in a form this does not read"));
    }
    let masks: u64 = if compression == BI_BITFIELDS && header_size as usize == HEADER_V3 {
        12
    } else {
        0
    };
    let pixels_at: u64 = header_size as u64 + masks + 4 * (palette_entries as u64);
    if pixels_at >= len as u64 {
        return Err(bad("it contains no pixels"));
    }
    let top_down: bool = raw_height >= 0x8000_0000;
    let height: u32 = if top_down {
        (0x1_0000_0000u64 - raw_height as u64) as u32
    } else {
        raw_height
    };
    Ok(Info { width, height, top_down, bits_per_pixel, pixels_at: pixels_at as usize })
}

// --- what a bitmap shows ------------------------------------------------------------

/// A picture: four bytes a pixel, red first, in the order it is read.
#[derive(Debug, PartialEq, Eq)]
pub struct Picture {
    pub width: u32,
    pub height: u32,
    pub rgba: Vec<u8>,
}

#[verifier::ext_equal]
pub struct PictureView {
    pub width: u32,
    pub height: u32,
    pub rgba: Seq<u8>,
}

impl View for Picture {
    type V = PictureView;

    open spec fn view(&self) -> PictureView {
        PictureView { width: self.width, height: self.height, rgba: self.rgba@ }
    }
}

pub open spec fn pixel_bytes(info: Info) -> int {
    info.bits_per_pixel as int / 8
}

/// Each row is padded out to a four-byte boundary.
pub open spec fn stride(info: Info) -> int {
    (info.width * pixel_bytes(info) + 3) / 4 * 4
}

/// Where a stored row starts.
pub open spec fn row_start(info: Info, row: int) -> int {
    info.pixels_at + row * stride(info)
}

/// The stored row that holds this row of the picture.
pub open spec fn stored_row(info: Info, y: int) -> int {
    if info.top_down {
        y
    } else {
        info.height - 1 - y
    }
}

/// The fourth byte of a pixel, by where it is stored.
pub open spec fn fourth(dib: Seq<u8>, info: Info, row: int, x: int) -> u8 {
    dib[row_start(info, row) + 4 * x + 3]
}

/// Whether the fourth byte of a pixel counts. It is officially unused, and
/// plenty of applications leave it zero. Taking that as "fully transparent"
/// would turn a perfectly good image invisible, so it only counts when
/// something in it is not zero.
pub open spec fn has_alpha(dib: Seq<u8>, info: Info) -> bool {
    info.bits_per_pixel == 32 && exists|row: int, x: int|
        0 <= row < info.height && 0 <= x < info.width && #[trigger] fourth(dib, info, row, x) != 0
}

/// One byte of a picture's row. Bitmaps store blue first.
pub open spec fn shown(dib: Seq<u8>, info: Info, alpha: bool, y: int, k: int) -> u8 {
    let at = row_start(info, stored_row(info, y)) + k / 4 * pixel_bytes(info);
    let c = k % 4;
    if c == 0 {
        dib[at + 2]
    } else if c == 1 {
        dib[at + 1]
    } else if c == 2 {
        dib[at]
    } else if alpha {
        dib[at + 3]
    } else {
        0xFF
    }
}

pub open spec fn picture_row(dib: Seq<u8>, info: Info, alpha: bool, y: int) -> Seq<u8> {
    Seq::new((4 * info.width) as nat, |k: int| shown(dib, info, alpha, y, k))
}

/// The first rows of the picture.
pub open spec fn picture_rows(dib: Seq<u8>, info: Info, alpha: bool, rows: int) -> Seq<u8>
    decreases rows,
{
    if rows <= 0 {
        seq![]
    } else {
        picture_rows(dib, info, alpha, rows - 1) + picture_row(dib, info, alpha, rows - 1)
    }
}

/// The picture a bitmap shows, or why it cannot be used.
pub open spec fn picture_in(dib: Seq<u8>) -> Result<PictureView, Seq<char>> {
    match header_info(dib) {
        Ok(info) => if dib.len() < info.pixels_at + stride(info) * info.height {
            Err("it is shorter than its own dimensions require"@)
        } else {
            Ok(
                (PictureView {
                    width: info.width,
                    height: info.height,
                    rgba: picture_rows(dib, info, has_alpha(dib, info), info.height as int),
                }),
            )
        },
        Err(why) => Err(why),
    }
}

/// A pixel of a row lies inside the rows.
proof fn pixel_lies_inside(row: int, rows: int, stride: int, x: int, width: int, size: int)
    requires
        0 <= row < rows,
        0 <= x < width,
        0 < size,
        width * size <= stride,
    ensures
        0 <= row * stride <= rows * stride,
        0 <= row * stride + x * size,
        row * stride + x * size + size <= rows * stride,
{
    assert(row * stride + stride <= rows * stride) by (nonlinear_arith)
        requires
            0 <= row < rows,
            0 <= stride,
    ;
    assert(x * size + size <= width * size) by (nonlinear_arith)
        requires
            0 <= x < width,
            0 < size,
    ;
    assert(0 <= row * stride) by (nonlinear_arith)
        requires
            0 <= row,
            0 <= stride,
    ;
    assert(0 <= x * size) by (nonlinear_arith)
        requires
            0 <= x,
            0 < size,
    ;
}

/// Whether the pixels of a bitmap are all there.
pub open spec fn complete(dib: Seq<u8>, info: Info) -> bool {
    &&& info.width > 0
    &&& info.height > 0
    &&& info.bits_per_pixel == 24 || info.bits_per_pixel == 32
    &&& info.pixels_at + stride(info) * info.height <= dib.len()
}

proof fn pixel_is_there(dib: Seq<u8>, info: Info, row: int, x: int)
    requires
        complete(dib, info),
        0 <= row < info.height,
        0 <= x < info.width,
    ensures
        info.pixels_at <= row_start(info, row),
        row_start(info, row) + x * pixel_bytes(info) + pixel_bytes(info) <= dib.len(),
        0 <= row * stride(info) <= dib.len(),
        0 <= x * pixel_bytes(info) <= dib.len(),
        stride(info) <= dib.len(),
{
    let size = pixel_bytes(info);
    assert(size == 3 || size == 4);
    assert(0 <= info.width * size) by (nonlinear_arith)
        requires
            info.width > 0,
            size > 0,
    ;
    pixel_lies_inside(row, info.height as int, stride(info), x, info.width as int, size);
    pixel_lies_inside(0, info.height as int, stride(info), x, info.width as int, size);
    assert(stride(info) <= stride(info) * info.height) by (nonlinear_arith)
        requires
            stride(info) >= 0,
            info.height > 0,
    ;
    assert(stride(info) * info.height == info.height * stride(info)) by (nonlinear_arith);
}

fn row_has_alpha(dib: &[u8], info: &Info, row: u32, stride_len: usize) -> (r: bool)
    requires
        complete(dib@, *info),
        info.bits_per_pixel == 32,
        row < info.height,
        stride_len == stride(*info),
    ensures
        r == exists|x: int| 0 <= x < info.width && #[trigger] fourth(dib@, *info, row as int, x) != 0,
{
    let len: usize = dib.len();
    let mut x: u32 = 0;
    while x < info.width
        invariant
            x <= info.width,
            len == dib@.len(),
            complete(dib@, *info),
            info.bits_per_pixel == 32,
            row < info.height,
            stride_len == stride(*info),
            forall|i: int| 0 <= i < x ==> #[trigger] fourth(dib@, *info, row as int, i) == 0,
        decreases info.width - x,
    {
        proof {
            pixel_is_there(dib@, *info, row as int, x as int);
        }
        let start: usize = info.pixels_at + row as usize * stride_len;
        let fourth_byte: u8 = dib[start + 4 * (x as usize) + 3];
        if fourth_byte != 0 {
            assert(fourth(dib@, *info, row as int, x as int) != 0);
            return true;
        }
        x += 1;
    }
    false
}

fn alpha_counts(dib: &[u8], info: &Info, stride_len: usize) -> (r: bool)
    requires
        complete(dib@, *info),
        stride_len == stride(*info),
    ensures
        r == has_alpha(dib@, *info),
{
    if info.bits_per_pixel != 32 {
        return false;
    }
    let mut row: u32 = 0;
    while row < info.height
        invariant
            row <= info.height,
            complete(dib@, *info),
            info.bits_per_pixel == 32,
            stride_len == stride(*info),
            forall|i: int, x: int|
                0 <= i < row && 0 <= x < info.width ==> #[trigger] fourth(dib@, *info, i, x) == 0,
        decreases info.height - row,
    {
        if row_has_alpha(dib, info, row, stride_len) {
            return true;
        }
        row += 1;
    }
    false
}

fn add_row(out: &mut Vec<u8>, dib: &[u8], info: &Info, alpha: bool, y: u32, stride_len: usize)
    requires
        complete(dib@, *info),
        y < info.height,
        stride_len == stride(*info),
        alpha ==> info.bits_per_pixel == 32,
    ensures
        final(out)@ == old(out)@ + picture_row(dib@, *info, alpha, y as int),
{
    let len: usize = dib.len();
    let size: usize = (info.bits_per_pixel / 8) as usize;
    let source: u32 = if info.top_down {
        y
    } else {
        info.height - 1 - y
    };
    let ghost before = out@;
    let ghost row = picture_row(dib@, *info, alpha, y as int);
    let mut x: u32 = 0;
    assert(before + row.take(0) =~= before);
    while x < info.width
        invariant
            x <= info.width,
            len == dib@.len(),
            complete(dib@, *info),
            y < info.height,
            source == stored_row(*info, y as int),
            source < info.height,
            stride_len == stride(*info),
            size == pixel_bytes(*info),
            alpha ==> size == 4,
            row == picture_row(dib@, *info, alpha, y as int),
            out@ == before + row.take(4 * x),
        decreases info.width - x,
    {
        proof {
            pixel_is_there(dib@, *info, source as int, x as int);
            assert(x * size == x as int * pixel_bytes(*info));
        }
        let at: usize = info.pixels_at + source as usize * stride_len + x as usize * size;
        let ghost begun = out@;
        out.push(dib[at + 2]);
        out.push(dib[at + 1]);
        out.push(dib[at]);
        out.push(if alpha { dib[at + 3] } else { 0xFF });
        proof {
            let k = 4 * x as int;
            assert(k / 4 == x && (k + 1) / 4 == x && (k + 2) / 4 == x && (k + 3) / 4 == x);
            assert(row[k] == dib@[at + 2]);
            assert(row[k + 1] == dib@[at + 1]);
            assert(row[k + 2] == dib@[at as int]);
            assert(out@ =~= before + row.take(4 * (x + 1)));
        }
        x += 1;
    }
    assert(row.take(4 * x) =~= row);
}

/// The picture a bitmap shows.
pub fn picture_of(dib: &[u8]) -> (r: Result<Picture, ClipboardError>)
    ensures
        match picture_in(dib@) {
            Ok(picture) => r is Ok && r->Ok_0@ == picture,
            Err(why) => r is Err && r->Err_0.deep_view() == complaint(why),
        },
{
    let info: Info = match parse_header(dib) {
        Ok(info) => info,
        Err(e) => {
            return Err(e);
        },
    };
    let len: usize = dib.len();
    let size: u64 = (info.bits_per_pixel / 8) as u64;
    proof {
        assert(info.width * size <= 4 * info.width) by (nonlinear_arith)
            requires
                size <= 4,
        ;
    }
    let stride_len: u64 = (info.width as u64 * size + 3) / 4 * 4;
    proof {
        assert(stride_len * info.height <= 0x4_0000_0000 * 0x1_0000_0000) by (nonlinear_arith)
            requires
                stride_len <= 0x4_0000_0000,
                info.height <= 0x1_0000_0000,
        ;
        assert(stride_len * info.height >= 0) by (nonlinear_arith);
    }
    let needed: u128 = stride_len as u128 * info.height as u128;
    if (len as u128) < info.pixels_at as u128 + needed {
        return Err(bad("it is shorter than its own dimensions require"));
    }
    proof {
        pixel_is_there(dib@, info, 0, 0);
    }
    let stride_len: usize = stride_len as usize;
    let alpha: bool = alpha_counts(dib, &info, stride_len);
    let mut rgba: Vec<u8> = Vec::new();
    let mut y: u32 = 0;
    while y < info.height
        invariant
            y <= info.height,
            complete(dib@, info),
            stride_len == stride(info),
            alpha == has_alpha(dib@, info),
            rgba@ == picture_rows(dib@, info, alpha, y as int),
        decreases info.height - y,
    {
        add_row(&mut rgba, dib, &info, alpha, y, stride_len);
        y += 1;
    }
    Ok(Picture { width: info.width, height: info.height, rgba })
}

// --- PNG ---------------------------------------------------------------------------

/// A decoded PNG: its size, its colour type and bit depth by the numbers PNG
/// has for them, and its samples.
#[derive(Debug, PartialEq, Eq)]
pub struct Frame {
    pub width: u32,
    pub height: u32,
    pub color: u8,
    pub depth: u8,
    pub pixels: Vec<u8>,
}

#[verifier::ext_equal]
pub struct FrameView {
    pub width: u32,
    pub height: u32,
    pub color: u8,
    pub depth: u8,
    pub pixels: Seq<u8>,
}

impl View for Frame {
    type V = FrameView;

    open spec fn view(&self) -> FrameView {
        FrameView {
            width: self.width,
            height: self.height,
            color: self.color,
            depth: self.depth,
            pixels: self.pixels@,
        }
    }
}

pub const RGB: u8 = 2;

pub const RGBA: u8 = 6;

/// How many bytes a pixel takes, for the colour types that are converted.
pub open spec fn channels(color: u8) -> int {
    if color == RGBA {
        4
    } else {
        3
    }
}

/// Whether a frame holds a sample for every channel of every pixel.
pub open spec fn whole(frame: FrameView) -> bool {
    (frame.color == RGB || frame.color == RGBA) && frame.depth == 8 ==> frame.pixels.len()
        == frame.width * frame.height * channels(frame.color)
}

/// How many bytes the pixels of a PNG take, or what is wrong with its header.
pub uninterp spec fn png_size(png: Seq<u8>) -> Result<usize, Seq<char>>;

/// The first frame of a PNG, or why it cannot be read.
pub uninterp spec fn png_frame(png: Seq<u8>) -> Result<FrameView, Seq<char>>;

/// A picture as PNG, or why it cannot be written.
pub uninterp spec fn png_written(picture: PictureView) -> Result<Seq<u8>, Seq<char>>;

pub open spec fn rgba_frame(picture: PictureView) -> FrameView {
    FrameView {
        width: picture.width,
        height: picture.height,
        color: RGBA,
        depth: 8,
        pixels: picture.rgba,
    }
}

/// Whether a PNG decodes to this picture.
pub open spec fn reads_back(png: Seq<u8>, picture: PictureView) -> bool {
    &&& png_size(png) == Ok::<usize, Seq<char>>(picture.rgba.len() as usize)
    &&& png_frame(png) == Ok::<FrameView, Seq<char>>(rgba_frame(picture))
}

/// How many bytes the decoder of the `png` crate needs for the pixels:
/// [`png::Decoder::read_info`] and [`png::Reader::output_buffer_size`]. What
/// they find depends on the bytes alone.
#[verifier::external_body]
fn frame_size(png: &[u8]) -> (r: Result<usize, String>)
    ensures
        match r {
            Ok(size) => png_size(png@) == Ok::<usize, Seq<char>>(size),
            Err(why) => png_size(png@) == Err::<usize, Seq<char>>(why@),
        },
{
    let decoder = png::Decoder::new(std::io::Cursor::new(png));
    match decoder.read_info() {
        Ok(reader) => Ok(reader.output_buffer_size()),
        Err(e) => Err(e.to_string()),
    }
}

/// The first frame of a PNG, by [`png::Reader::next_frame`]. What it holds
/// depends on the bytes alone. Its samples take as many bytes as its size, its
/// colour type and its depth ask for; neither side of it is zero. The buffer it
/// is read into has the size that the decoder asks for, and none over
/// `isize::MAX` bytes can be had.
#[verifier::external_body]
fn read_frame(png: &[u8], size: usize) -> (r: Result<Frame, String>)
    requires
        png_size(png@) is Ok,
        png_size(png@)->Ok_0 == size,
        size <= isize::MAX,
    ensures
        match r {
            Ok(frame) => png_frame(png@) == Ok::<FrameView, Seq<char>>(frame@),
            Err(why) => png_frame(png@) == Err::<FrameView, Seq<char>>(why@),
        },
        r is Ok ==> whole(r->Ok_0@) && r->Ok_0.width > 0 && r->Ok_0.height > 0,
{
    let decoder = png::Decoder::new(std::io::Cursor::new(png));
    let mut reader = decoder.read_info().map_err(|e| e.to_string())?;
    let mut pixels = vec![0u8; size];
    let frame = reader.next_frame(&mut pixels).map_err(|e| e.to_string())?;
    pixels.truncate(frame.buffer_size());
    let (color, depth) = (frame.color_type as u8, frame.bit_depth as u8);
    Ok(Frame { width: frame.width, height: frame.height, color, depth, pixels })
}

/// A picture as PNG, eight bits a channel, with [`png::Encoder`] and
/// [`png::Writer::write_image_data`]. What is written depends on the picture
/// alone, and reads back as the picture where a row fits the 64 MiB that the
/// decoder allows a row by default. Only a picture with a side of zero is not
/// written: the rest goes to memory, which takes whatever it is given.
#[verifier::external_body]
fn write_png(picture: &Picture) -> (r: Result<Vec<u8>, String>)
    requires
        picture.rgba@.len() == picture.width * picture.height * 4,
    ensures
        match r {
            Ok(png) => png_written(picture@) == Ok::<Seq<u8>, Seq<char>>(png@),
            Err(why) => png_written(picture@) == Err::<Seq<u8>, Seq<char>>(why@),
        },
        (r is Ok && picture.width <= 0x0100_0000 ==> reads_back(r->Ok_0@, picture@)),
        (picture.width > 0 && picture.height > 0 ==> r is Ok),
{
    let mut out = Vec::new();
    {
        let w = std::io::Cursor::new(&mut out);
        let mut encoder = png::Encoder::new(w, picture.width, picture.height);
        encoder.set_color(png::ColorType::Rgba);
        encoder.set_depth(png::BitDepth::Eight);
        let mut writer = encoder.write_header().map_err(|e| e.to_string())?;
        writer.write_image_data(&picture.rgba).map_err(|e| e.to_string())?;
    }
    Ok(out)
}

/// Some text before another, as an error of the display.
pub open spec fn trouble(what: Seq<char>, why: Seq<char>) -> ClipboardErrorView {
    ClipboardErrorView::Display(what + why)
}

proof fn picture_rows_len(dib: Seq<u8>, info: Info, alpha: bool, rows: int)
    requires
        rows >= 0,
    ensures
        picture_rows(dib, info, alpha, rows).len() == info.width * rows * 4,
    decreases rows,
{
    if rows > 0 {
        picture_rows_len(dib, info, alpha, rows - 1);
        assert(info.width * (rows - 1) * 4 + 4 * info.width == info.width * rows * 4)
            by (nonlinear_arith);
    } else {
        assert(info.width * 0 * 4 == 0);
    }
}

/// Write a picture as PNG.
pub fn png_of(picture: &Picture) -> (r: Result<Vec<u8>, ClipboardError>)
    requires
        picture.rgba@.len() == picture.width * picture.height * 4,
    ensures
        match png_written(picture@) {
            Ok(png) => r is Ok && r->Ok_0@ == png,
            Err(why) => r is Err && r->Err_0.deep_view() == trouble("could not write a PNG: "@, why),
        },
        (r is Ok && picture.width <= 0x0100_0000 ==> reads_back(r->Ok_0@, picture@)),
        (picture.width > 0 && picture.height > 0 ==> r is Ok),
{
    match write_png(picture) {
        Ok(png) => Ok(png),
        Err(why) => Err(unusable("could not write a PNG: ", why.as_str())),
    }
}

/// Convert a device-independent bitmap to PNG. Every bitmap that shows a picture
/// is converted.
pub fn dib_to_png(dib: &[u8]) -> (r: Result<Vec<u8>, ClipboardError>)
    ensures
        match picture_in(dib@) {
            Ok(picture) => {
                &&& r is Ok
                &&& png_written(picture) == Ok::<Seq<u8>, Seq<char>>(r->Ok_0@)
                &&& picture.width <= 0x0100_0000 ==> reads_back(r->Ok_0@, picture)
            },
            Err(why) => r is Err && r->Err_0.deep_view() == complaint(why),
        },
{
    match picture_of(dib) {
        Ok(picture) => {
            proof {
                let info = header_info(dib@)->Ok_0;
                picture_rows_len(dib@, info, has_alpha(dib@, info), info.height as int);
            }
            png_of(&picture)
        },
        Err(e) => Err(e),
    }
}

// --- making a bitmap -----------------------------------------------------------------

/// What a colour type is called.
pub open spec fn color_name(color: u8) -> Seq<char> {
    if color == 0 {
        "Grayscale"@
    } else if color == 3 {
        "Indexed"@
    } else {
        "GrayscaleAlpha"@
    }
}

/// One byte of a pixel, red first. A picture without alpha is opaque.
pub open spec fn component(frame: FrameView, pixel: int, c: int) -> u8 {
    if c == 3 && channels(frame.color) == 3 {
        0xFF
    } else {
        frame.pixels[pixel * channels(frame.color) + c]
    }
}

/// Blue is stored first, red third.
pub open spec fn blue_first(c: int) -> int {
    if c == 0 {
        2
    } else if c == 2 {
        0
    } else {
        c
    }
}

/// A row of a frame as a bitmap stores it.
pub open spec fn bitmap_row(frame: FrameView, y: int) -> Seq<u8> {
    Seq::new(
        (4 * frame.width) as nat,
        |k: int| component(frame, y * frame.width + k / 4, blue_first(k % 4)),
    )
}

/// The first stored rows: the bottom one comes first.
pub open spec fn bitmap_rows(frame: FrameView, rows: int) -> Seq<u8>
    decreases rows,
{
    if rows <= 0 {
        seq![]
    } else {
        bitmap_rows(frame, rows - 1) + bitmap_row(frame, frame.height - rows)
    }
}

/// The part that both headers have. The height is positive: rows run bottom to
/// top.
pub open spec fn header_start(size: u32, frame: FrameView, compression: u32) -> Seq<u8> {
    le32(size) + le32(frame.width) + le32(frame.height) + le16(1) + le16(32) + le32(compression)
        + le32((4 * frame.width * frame.height % 0x1_0000_0000) as u32) + le32(0) + le32(0) + le32(
        0,
    ) + le32(0)
}

pub open spec fn zeros(n: nat) -> Seq<u8> {
    Seq::new(n, |i: int| 0u8)
}

/// A plain header, the form Windows can turn into a bitmap for every
/// application that asks for one.
pub open spec fn header_v3(frame: FrameView) -> Seq<u8> {
    header_start(HEADER_V3 as u32, frame, BI_RGB)
}

/// A header whose masks say where the alpha lives, and that the colours are
/// sRGB.
pub open spec fn header_v5(frame: FrameView) -> Seq<u8> {
    header_start(HEADER_V5 as u32, frame, BI_BITFIELDS) + masks_v5()
}

/// Red, green, blue, alpha, and what sRGB is called.
pub open spec fn masks_v5() -> Seq<u8> {
    le32(0x00FF_0000) + le32(0x0000_FF00) + le32(0x0000_00FF) + le32(0xFF00_0000) + le32(
        0x7352_4742,
    ) + zeros(64)
}

/// Why a frame is not converted, if it is not.
pub open spec fn unconvertible(frame: FrameView) -> Option<Seq<char>> {
    if frame.color != RGB && frame.color != RGBA {
        Some("a "@ + color_name(frame.color) + " PNG is not one of the forms this converts"@)
    } else if frame.depth != 8 {
        Some("only eight bits per channel are converted"@)
    } else {
        None
    }
}

/// The pixels of a frame, four bytes each, red first.
pub open spec fn rgba(frame: FrameView) -> Seq<u8> {
    Seq::new(
        (4 * (frame.width * frame.height)) as nat,
        |k: int| component(frame, k / 4, k % 4),
    )
}

/// The picture a frame holds.
pub open spec fn picture(frame: FrameView) -> PictureView {
    PictureView { width: frame.width, height: frame.height, rgba: rgba(frame) }
}

/// Whether some pixel of a frame is not fully transparent.
pub open spec fn visible(frame: FrameView) -> bool {
    exists|pixel: int|
        0 <= pixel < frame.width * frame.height && #[trigger] component(frame, pixel, 3) != 0
}

/// Whether a bitmap shows the picture a frame holds, as far as a header can say
/// how large it is and anything of it can be seen: of a picture in which every
/// pixel is fully transparent a bitmap shows an opaque one.
pub open spec fn comes_back(frame: FrameView, dib: Seq<u8>) -> bool {
    frame.width < 0x8000_0000 && frame.height < 0x8000_0000 && visible(frame) ==> picture_in(dib)
        == Ok::<PictureView, Seq<char>>(picture(frame))
}

/// The bitmap of a frame, behind a header.
pub open spec fn bitmap(header: Seq<u8>, frame: FrameView) -> Seq<u8> {
    header + bitmap_rows(frame, frame.height as int)
}

fn color_name_of(color: u8) -> (r: Vec<char>)
    ensures
        r@ == color_name(color),
{
    if color == 0 {
        chars_of("Grayscale")
    } else if color == 3 {
        chars_of("Indexed")
    } else {
        chars_of("GrayscaleAlpha")
    }
}

fn check_frame(frame: &Frame) -> (r: Option<ClipboardError>)
    ensures
        match unconvertible(frame@) {
            Some(why) => r is Some && r->0.deep_view() == ClipboardErrorView::Display(why),
            None => r is None,
        },
{
    if frame.color != RGB && frame.color != RGBA {
        let mut why: Vec<char> = chars_of("a ");
        let mut name: Vec<char> = color_name_of(frame.color);
        why.append(&mut name);
        add_text(&mut why, " PNG is not one of the forms this converts");
        Some(ClipboardError::Display(text_of(&why)))
    } else if frame.depth != 8 {
        Some(ClipboardError::Display("only eight bits per channel are converted".to_owned()))
    } else {
        None
    }
}

fn add_header_start(out: &mut Vec<u8>, size: u32, frame: &Frame, compression: u32)
    ensures
        final(out)@ == old(out)@ + header_start(size, frame@, compression),
{
    proof {
        assert(0 <= frame.width * frame.height <= 0xFFFF_FFFF * 0xFFFF_FFFF) by (nonlinear_arith)
            requires
                frame.width <= 0xFFFF_FFFF,
                frame.height <= 0xFFFF_FFFF,
        ;
        assert(4 * frame.width * frame.height == 4 * (frame.width * frame.height))
            by (nonlinear_arith);
    }
    let pixels: u128 = 4 * (frame.width as u128 * frame.height as u128);
    let ghost before = out@;
    add_le32(out, size);
    add_le32(out, frame.width);
    add_le32(out, frame.height);
    add_le16(out, 1);
    add_le16(out, 32);
    add_le32(out, compression);
    add_le32(out, (pixels % 0x1_0000_0000) as u32);
    add_le32(out, 0);
    add_le32(out, 0);
    add_le32(out, 0);
    add_le32(out, 0);
    assert(out@ =~= before + header_start(size, frame@, compression));
}

proof fn sample_is_there(frame: FrameView, x: int, y: int)
    requires
        whole(frame),
        unconvertible(frame) is None,
        0 <= x < frame.width,
        0 <= y < frame.height,
    ensures
        0 <= y * frame.width <= frame.pixels.len(),
        0 <= y * frame.width + x <= frame.pixels.len(),
        0 <= (y * frame.width + x) * channels(frame.color),
        (y * frame.width + x) * channels(frame.color) + channels(frame.color)
            <= frame.pixels.len(),
{
    let w = frame.width as int;
    let h = frame.height as int;
    let n = channels(frame.color);
    assert(0 <= y * w && y * w + x + 1 <= w * h) by (nonlinear_arith)
        requires
            0 <= x < w,
            0 <= y < h,
    ;
    assert((y * w + x) * n + n <= w * h * n) by (nonlinear_arith)
        requires
            y * w + x + 1 <= w * h,
            n > 0,
    ;
    assert(w * h <= w * h * n) by (nonlinear_arith)
        requires
            w * h >= 0,
            n >= 1,
    ;
    assert(0 <= (y * w + x) * n) by (nonlinear_arith)
        requires
            0 <= y * w + x,
            n > 0,
    ;
}

fn add_bitmap_row(out: &mut Vec<u8>, frame: &Frame, y: u32)
    requires
        whole(frame@),
        unconvertible(frame@) is None,
        y < frame.height,
    ensures
        final(out)@ == old(out)@ + bitmap_row(frame@, y as int),
{
    let len: usize = frame.pixels.len();
    let size: usize = if frame.color == RGBA { 4 } else { 3 };
    let ghost before = out@;
    let ghost row = bitmap_row(frame@, y as int);
    let mut x: u32 = 0;
    assert(before + row.take(0) =~= before);
    while x < frame.width
        invariant
            x <= frame.width,
            len == frame.pixels@.len(),
            whole(frame@),
            unconvertible(frame@) is None,
            y < frame.height,
            size == channels(frame.color),
            row == bitmap_row(frame@, y as int),
            out@ == before + row.take(4 * x),
        decreases frame.width - x,
    {
        proof {
            sample_is_there(frame@, x as int, y as int);
        }
        let pixel: usize = y as usize * frame.width as usize + x as usize;
        let at: usize = pixel * size;
        out.push(frame.pixels[at + 2]);
        out.push(frame.pixels[at + 1]);
        out.push(frame.pixels[at]);
        out.push(if size == 4 { frame.pixels[at + 3] } else { 0xFF });
        proof {
            let k = 4 * x as int;
            assert(k / 4 == x && (k + 1) / 4 == x && (k + 2) / 4 == x && (k + 3) / 4 == x);
            assert(row[k] == frame.pixels@[at + 2]);
            assert(row[k + 1] == frame.pixels@[at + 1]);
            assert(row[k + 2] == frame.pixels@[at as int]);
            assert(out@ =~= before + row.take(4 * (x + 1)));
        }
        x += 1;
    }
    assert(row.take(4 * x) =~= row);
}

fn add_bitmap_rows(out: &mut Vec<u8>, frame: &Frame)
    requires
        whole(frame@),
        unconvertible(frame@) is None,
    ensures
        final(out)@ == bitmap(old(out)@, frame@),
{
    let ghost header = out@;
    let mut row: u32 = 0;
    assert(header + bitmap_rows(frame@, 0) =~= header);
    while row < frame.height
        invariant
            row <= frame.height,
            whole(frame@),
            unconvertible(frame@) is None,
            out@ == header + bitmap_rows(frame@, row as int),
        decreases frame.height - row,
    {
        let ghost before = out@;
        add_bitmap_row(out, frame, frame.height - 1 - row);
        assert(out@ =~= header + bitmap_rows(frame@, row + 1));
        row += 1;
    }
}

/// The plain bitmap of a decoded PNG.
pub fn bitmap_of(frame: &Frame) -> (r: Result<Vec<u8>, ClipboardError>)
    requires
        whole(frame@),
    ensures
        match unconvertible(frame@) {
            Some(why) => r is Err && r->Err_0.deep_view() == ClipboardErrorView::Display(why),
            None => r is Ok && r->Ok_0@ == bitmap(header_v3(frame@), frame@),
        },
{
    if let Some(e) = check_frame(frame) {
        return Err(e);
    }
    let mut dib: Vec<u8> = Vec::new();
    add_header_start(&mut dib, HEADER_V3 as u32, frame, BI_RGB);
    assert(dib@ =~= header_v3(frame@));
    add_bitmap_rows(&mut dib, frame);
    Ok(dib)
}

fn masks_bytes() -> (r: Vec<u8>)
    ensures
        r@ == masks_v5(),
{
    let mut r: Vec<u8> = Vec::new();
    add_le32(&mut r, 0x00FF_0000);
    add_le32(&mut r, 0x0000_FF00);
    add_le32(&mut r, 0x0000_00FF);
    add_le32(&mut r, 0xFF00_0000);
    add_le32(&mut r, 0x7352_4742);
    let ghost masks = r@;
    let mut i: usize = 0;
    assert(masks + zeros(0) =~= masks);
    while i < 64
        invariant
            i <= 64,
            r@ == masks + zeros(i as nat),
        decreases 64 - i,
    {
        r.push(0);
        i += 1;
        assert(r@ =~= masks + zeros(i as nat));
    }
    assert(r@ =~= masks_v5());
    r
}

/// The bitmap of a decoded PNG that declares where its alpha is.
pub fn bitmap_v5_of(frame: &Frame) -> (r: Result<Vec<u8>, ClipboardError>)
    requires
        whole(frame@),
    ensures
        match unconvertible(frame@) {
            Some(why) => r is Err && r->Err_0.deep_view() == ClipboardErrorView::Display(why),
            None => r is Ok && r->Ok_0@ == bitmap(header_v5(frame@), frame@),
        },
{
    if let Some(e) = check_frame(frame) {
        return Err(e);
    }
    let mut dib: Vec<u8> = Vec::new();
    add_header_start(&mut dib, HEADER_V5 as u32, frame, BI_BITFIELDS);
    let mut masks: Vec<u8> = masks_bytes();
    dib.append(&mut masks);
    assert(dib@ =~= header_v5(frame@));
    add_bitmap_rows(&mut dib, frame);
    Ok(dib)
}

/// The first frame of a PNG, or why there is none to be had. One whose pixels
/// no memory could hold is not read.
pub open spec fn frame_in(png: Seq<u8>) -> Result<FrameView, Seq<char>> {
    match png_size(png) {
        Ok(size) => if size > isize::MAX {
            Err("could not read the PNG: it is too large"@)
        } else {
            match png_frame(png) {
                Ok(frame) => Ok(frame),
                Err(why) => Err("could not read the PNG: "@ + why),
            }
        },
        Err(why) => Err("that is not a PNG this reads: "@ + why),
    }
}

/// Decode a PNG.
pub fn frame_of(png: &[u8]) -> (r: Result<Frame, ClipboardError>)
    ensures
        match frame_in(png@) {
            Ok(frame) => r is Ok && r->Ok_0@ == frame && whole(frame),
            Err(why) => r is Err && r->Err_0.deep_view() == ClipboardErrorView::Display(why),
        },
{
    match frame_size(png) {
        Ok(size) => {
            if size > isize::MAX as usize {
                return Err(
                    ClipboardError::Display("could not read the PNG: it is too large".to_owned()),
                );
            }
            match read_frame(png, size) {
                Ok(frame) => Ok(frame),
                Err(why) => Err(unusable("could not read the PNG: ", why.as_str())),
            }
        },
        Err(why) => Err(unusable("that is not a PNG this reads: ", why.as_str())),
    }
}

/// Convert a PNG to a device-independent bitmap. The bitmap shows the picture
/// that is in the PNG, unless nothing of it can be seen.
///
/// `CF_DIB` is a plain header followed by pixels. Windows makes `CF_BITMAP`
/// from it for every application that asks for one, and refuses when the
/// header is a later, longer form. Rows are written bottom first, the
/// arrangement every application understands.
pub fn png_to_dib(png: &[u8]) -> (r: Result<Vec<u8>, ClipboardError>)
    ensures
        match frame_in(png@) {
            Ok(frame) => match unconvertible(frame) {
                Some(why) => r is Err && r->Err_0.deep_view() == ClipboardErrorView::Display(why),
                None => {
                    &&& r is Ok
                    &&& r->Ok_0@ == bitmap(header_v3(frame), frame)
                    &&& comes_back(frame, r->Ok_0@)
                },
            },
            Err(why) => r is Err && r->Err_0.deep_view() == ClipboardErrorView::Display(why),
        },
{
    match frame_of(png) {
        Ok(frame) => {
            proof {
                a_picture_survives_the_trip_out_and_back(frame@);
            }
            bitmap_of(&frame)
        },
        Err(e) => Err(e),
    }
}

/// Convert a PNG to the form of bitmap that carries transparency across intact:
/// a plain header has nowhere to declare it, and applications may then treat
/// the fourth byte as padding. The bitmap shows the picture that is in the PNG,
/// unless nothing of it can be seen.
pub fn png_to_dibv5(png: &[u8]) -> (r: Result<Vec<u8>, ClipboardError>)
    ensures
        match frame_in(png@) {
            Ok(frame) => match unconvertible(frame) {
                Some(why) => r is Err && r->Err_0.deep_view() == ClipboardErrorView::Display(why),
                None => {
                    &&& r is Ok
                    &&& r->Ok_0@ == bitmap(header_v5(frame), frame)
                    &&& comes_back(frame, r->Ok_0@)
                },
            },
            Err(why) => r is Err && r->Err_0.deep_view() == ClipboardErrorView::Display(why),
        },
{
    match frame_of(png) {
        Ok(frame) => {
            proof {
                a_picture_survives_the_trip_out_and_back(frame@);
            }
            bitmap_v5_of(&frame)
        },
        Err(e) => Err(e),
    }
}

} // verus!
