//! What a picture keeps when it becomes a bitmap and comes back.

use vstd::prelude::*;

use crate::bytes::{le16, le32, number16, number32};
use crate::image::{
    bitmap, bitmap_row, bitmap_rows, blue_first, comes_back, component, fourth, frame_in, has_alpha,
    header_info, header_start, header_v3, header_v5, masks_v5, picture, picture_in, picture_row,
    picture_rows, pixel_bytes, reads_back, rgba, rgba_frame, row_start, shown, stored_row, stride,
    unconvertible, visible, whole, zeros, FrameView, Info, PictureView, BI_BITFIELDS, BI_RGB, HEADER_V3,
    HEADER_V5,
};

verus! {

proof fn stored_byte(frame: FrameView, rows: int, r: int, k: int)
    requires
        0 <= r < rows <= frame.height,
        0 <= k < 4 * frame.width,
    ensures
        bitmap_rows(frame, rows).len() == rows * (4 * frame.width),
        0 <= r * (4 * frame.width),
        r * (4 * frame.width) + k < rows * (4 * frame.width),
        bitmap_rows(frame, rows)[r * (4 * frame.width) + k] == bitmap_row(
            frame,
            frame.height - 1 - r,
        )[k],
    decreases rows,
{
    let w4 = 4 * frame.width as int;
    let before = bitmap_rows(frame, rows - 1);
    if rows == 1 {
        assert(before =~= seq![]);
        assert(1 * w4 == w4);
        assert(0 * w4 == 0);
        assert(r == 0);
    } else {
        stored_byte(frame, rows - 1, if r < rows - 1 { r } else { 0 }, k);
        assert((rows - 1) * w4 + w4 == rows * w4) by (nonlinear_arith);
        assert(0 <= r * w4 && r * w4 + w4 <= rows * w4) by (nonlinear_arith)
            requires
                0 <= r < rows,
                w4 >= 0,
        ;
        if r < rows - 1 {
            assert(r * w4 + w4 <= (rows - 1) * w4) by (nonlinear_arith)
                requires
                    r < rows - 1,
                    w4 >= 0,
            ;
        }
    }
}

/// The rows of a bitmap, behind whatever header says the same of them, show
/// the picture they were made of.
proof fn rows_show_the_picture(header: Seq<u8>, frame: FrameView, info: Info, x: int, y: int)
    requires
        info.width == frame.width,
        info.height == frame.height,
        !info.top_down,
        info.bits_per_pixel == 32,
        info.pixels_at == header.len(),
        0 <= x < frame.width,
        0 <= y < frame.height,
        component(frame, y * frame.width + x, 3) != 0,
    ensures
        stride(info) * info.height <= bitmap(header, frame).len() - header.len(),
        has_alpha(bitmap(header, frame), info),
        picture_rows(bitmap(header, frame), info, true, frame.height as int) == rgba(frame),
{
    let dib = bitmap(header, frame);
    let w = frame.width as int;
    let h = frame.height as int;
    assert(pixel_bytes(info) == 4);
    assert(stride(info) == 4 * w);
    stored_byte(frame, h, 0, 0);
    assert(4 * w * h == h * (4 * w)) by (nonlinear_arith);
    stored_byte(frame, h, h - 1 - y, 4 * x + 3);
    assert((4 * x + 3) / 4 == x && (4 * x + 3) % 4 == 3);
    assert(fourth(dib, info, h - 1 - y, x) != 0);
    first_rows_show_the_picture(header, frame, info, h);
    assert(4 * (w * h) == 4 * w * h) by (nonlinear_arith);
    assert(rgba(frame).take(4 * (w * h)) =~= rgba(frame));
}

proof fn first_rows_show_the_picture(header: Seq<u8>, frame: FrameView, info: Info, rows: int)
    requires
        info.width == frame.width,
        info.height == frame.height,
        !info.top_down,
        info.bits_per_pixel == 32,
        info.pixels_at == header.len(),
        0 < frame.width,
        0 <= rows <= frame.height,
    ensures
        0 <= frame.width * rows <= frame.width * frame.height,
        picture_rows(bitmap(header, frame), info, true, rows) == rgba(frame).take(
            4 * (frame.width * rows),
        ),
    decreases rows,
{
    let dib = bitmap(header, frame);
    let w = frame.width as int;
    let h = frame.height as int;
    assert(0 <= w * rows && w * rows <= w * h) by (nonlinear_arith)
        requires
            0 <= rows <= h,
            0 < w,
    ;
    if rows == 0 {
        assert(w * 0 == 0);
        assert(rgba(frame).take(0) =~= seq![]);
    } else {
        let y = rows - 1;
        first_rows_show_the_picture(header, frame, info, y);
        assert(w * y + w == w * rows) by (nonlinear_arith)
            requires
                y == rows - 1,
        ;
        assert(w * y == y * w) by (nonlinear_arith);
        let row = picture_row(dib, info, true, y);
        assert(pixel_bytes(info) == 4);
        assert(stride(info) == 4 * w);
        assert forall|k: int| 0 <= k < 4 * w implies row[k] == rgba(frame)[4 * (w * y) + k] by {
            let c = k % 4;
            let j = if c == 3 {
                3
            } else {
                blue_first(c)
            };
            let i = 4 * (k / 4) + j;
            stored_byte(frame, h, h - 1 - y, i);
            assert(i / 4 == k / 4 && i % 4 == j);
            let m = w * y;
            assert((4 * m + k) / 4 == m + k / 4 && (4 * m + k) % 4 == c);
            assert(row[k] == shown(dib, info, true, y, k));
            assert(stored_row(info, y) == h - 1 - y);
            let at = row_start(info, h - 1 - y) + k / 4 * 4;
            assert(row[k] == dib[at + j]);
            assert(dib[at + j] == bitmap_rows(frame, h)[(h - 1 - y) * (4 * w) + i]);
        }
        assert(picture_rows(dib, info, true, rows) =~= rgba(frame).take(4 * (w * rows)));
    }
}

proof fn le32_value(n: u32)
    ensures
        le32(n)[0] + 256 * le32(n)[1] + 65536 * le32(n)[2] + 16777216 * le32(n)[3] == n,
{
}

proof fn header_bytes(size: u32, frame: FrameView, compression: u32)
    ensures
        ({
            let h = header_start(size, frame, compression);
            &&& h.len() == 40
            &&& h.subrange(0, 4) == le32(size)
            &&& h.subrange(4, 8) == le32(frame.width)
            &&& h.subrange(8, 12) == le32(frame.height)
            &&& h.subrange(14, 16) == le16(32)
            &&& h.subrange(16, 20) == le32(compression)
            &&& h.subrange(32, 36) == le32(0)
        }),
{
    let h = header_start(size, frame, compression);
    let p1 = le32(size) + le32(frame.width);
    let p2 = p1 + le32(frame.height);
    let p3 = p2 + le16(1) + le16(32);
    let p4 = p3 + le32(compression);
    let p5 = p4 + le32((4 * frame.width * frame.height % 0x1_0000_0000) as u32) + le32(0) + le32(0);
    assert(p1.subrange(0, 4) =~= le32(size));
    assert(p1.subrange(4, 8) =~= le32(frame.width));
    assert(p2.take(8) =~= p1);
    assert(p2.subrange(8, 12) =~= le32(frame.height));
    assert(p3.take(12) =~= p2);
    assert(p3.subrange(14, 16) =~= le16(32));
    assert(p4.take(16) =~= p3);
    assert(p4.subrange(16, 20) =~= le32(compression));
    assert(p5.take(20) =~= p4);
    assert(p5.len() == 32);
    assert(h == p5 + le32(0) + le32(0));
    assert(h.take(32) =~= p5);
    assert(h.subrange(32, 36) =~= le32(0));
    assert(h.subrange(0, 4) =~= p1.subrange(0, 4));
    assert(h.subrange(4, 8) =~= p1.subrange(4, 8));
    assert(h.subrange(8, 12) =~= p2.subrange(8, 12));
    assert(h.subrange(14, 16) =~= p3.subrange(14, 16));
    assert(h.subrange(16, 20) =~= p4.subrange(16, 20));
}

proof fn field32(s: Seq<u8>, at: int, n: u32)
    requires
        0 <= at,
        at + 4 <= s.len(),
        s.subrange(at, at + 4) == le32(n),
    ensures
        number32(s, at) == n,
{
    le32_value(n);
    let f = s.subrange(at, at + 4);
    assert(f[0] == s[at] && f[1] == s[at + 1] && f[2] == s[at + 2] && f[3] == s[at + 3]);
}

proof fn header_reads_back(size: u32, frame: FrameView, compression: u32, rest: Seq<u8>)
    ensures
        ({
            let dib = header_start(size, frame, compression) + rest;
            &&& header_start(size, frame, compression).len() == 40
            &&& number32(dib, 0) == size
            &&& number32(dib, 4) == frame.width
            &&& number32(dib, 8) == frame.height
            &&& number16(dib, 14) == 32
            &&& number32(dib, 16) == compression
            &&& number32(dib, 32) == 0
        }),
{
    header_bytes(size, frame, compression);
    let h = header_start(size, frame, compression);
    let dib = h + rest;
    assert(dib.subrange(0, 4) =~= h.subrange(0, 4));
    assert(dib.subrange(4, 8) =~= h.subrange(4, 8));
    assert(dib.subrange(8, 12) =~= h.subrange(8, 12));
    assert(dib.subrange(16, 20) =~= h.subrange(16, 20));
    assert(dib.subrange(32, 36) =~= h.subrange(32, 36));
    field32(dib, 0, size);
    field32(dib, 4, frame.width);
    field32(dib, 8, frame.height);
    field32(dib, 16, compression);
    field32(dib, 32, 0);
    assert(h.subrange(14, 16)[0] == h[14] && h.subrange(14, 16)[1] == h[15]);
}

/// A bitmap behind a header of either form, with its masks inside or behind it,
/// shows the picture it was made of.
proof fn shows_the_picture(
    size: u32,
    compression: u32,
    more: Seq<u8>,
    frame: FrameView,
    x: int,
    y: int,
)
    requires
        ({
            ||| size == HEADER_V3 && compression == BI_RGB && more.len() == 0
            ||| size == HEADER_V3 && compression == BI_BITFIELDS && more.len() == 12
            ||| size == HEADER_V5 && compression == BI_BITFIELDS && more.len() == 84
        }),
        frame.width < 0x8000_0000,
        frame.height < 0x8000_0000,
        0 <= x < frame.width,
        0 <= y < frame.height,
        component(frame, y * frame.width + x, 3) != 0,
    ensures
        picture_in(bitmap(header_start(size, frame, compression) + more, frame)) == Ok::<
            PictureView,
            Seq<char>,
        >(picture(frame)),
{
    let rows = bitmap_rows(frame, frame.height as int);
    let start = header_start(size, frame, compression);
    let header = start + more;
    let dib = bitmap(header, frame);
    stored_byte(frame, frame.height as int, 0, 0);
    header_reads_back(size, frame, compression, more + rows);
    assert(dib =~= start + (more + rows));
    let info = Info {
        width: frame.width,
        height: frame.height,
        top_down: false,
        bits_per_pixel: 32,
        pixels_at: header.len() as usize,
    };
    assert(rows.len() > 0);
    assert(header_info(dib) == Ok::<Info, Seq<char>>(info));
    rows_show_the_picture(header, frame, info, x, y);
}

proof fn masks_len()
    ensures
        masks_v5().len() == 84,
{
}

/// A picture that becomes a bitmap, of either form, and comes back is the
/// picture it was, pixel for pixel. Of a picture in which every pixel is fully
/// transparent this does not hold: it comes back opaque.
pub proof fn a_picture_survives_the_trip_out_and_back(frame: FrameView)
    requires
        whole(frame),
    ensures
        unconvertible(frame) is None ==> comes_back(frame, bitmap(header_v3(frame), frame)),
        unconvertible(frame) is None ==> comes_back(frame, bitmap(header_v5(frame), frame)),
{
    if frame.width < 0x8000_0000 && frame.height < 0x8000_0000 && visible(frame) {
        let w = frame.width as int;
        let h = frame.height as int;
        let pixel = choose|pixel: int|
            0 <= pixel < frame.width * frame.height && #[trigger] component(frame, pixel, 3) != 0;
        assert(w > 0) by (nonlinear_arith)
            requires
                0 <= pixel < w * h,
                w >= 0,
        ;
        let x = pixel % w;
        let y = pixel / w;
        assert(y * w + x == pixel && 0 <= x < w && 0 <= y < h) by (nonlinear_arith)
            requires
                0 <= pixel < w * h,
                w > 0,
                x == pixel % w,
                y == pixel / w,
        ;
        let none = Seq::<u8>::empty();
        Seq::add_empty_right(header_v3(frame), none);
        shows_the_picture(HEADER_V3 as u32, BI_RGB, none, frame, x, y);
        masks_len();
        shows_the_picture(HEADER_V5 as u32, BI_BITFIELDS, masks_v5(), frame, x, y);
    }
}

/// A picture that goes from one PNG through a bitmap, of either form, to another
/// is the picture it was: the second PNG decodes to the same size and the same
/// pixels, opaque where the first had no alpha. `back` is what became of the
/// bitmap; that it reads back as the picture in it is promised of whatever is
/// written.
pub proof fn a_png_survives_the_trip(png: Seq<u8>, dib: Seq<u8>, back: Seq<u8>)
    requires
        frame_in(png) is Ok,
        ({
            let frame = frame_in(png)->Ok_0;
            &&& whole(frame)
            &&& unconvertible(frame) is None
            &&& visible(frame)
            &&& frame.width <= 0x0100_0000
            &&& frame.height < 0x8000_0000
            &&& 4 * (frame.width * frame.height) <= isize::MAX
            &&& dib == bitmap(header_v3(frame), frame) || dib == bitmap(header_v5(frame), frame)
        }),
        picture_in(dib) is Ok && picture_in(dib)->Ok_0.width <= 0x0100_0000 ==> reads_back(
            back,
            picture_in(dib)->Ok_0,
        ),
    ensures
        picture_in(dib) == Ok::<PictureView, Seq<char>>(picture(frame_in(png)->Ok_0)),
        frame_in(back) == Ok::<FrameView, Seq<char>>(rgba_frame(picture(frame_in(png)->Ok_0))),
{
    let frame = frame_in(png)->Ok_0;
    a_picture_survives_the_trip_out_and_back(frame);
    assert(picture(frame).rgba.len() == 4 * (frame.width * frame.height)) by {
        assert(frame.width * frame.height >= 0) by (nonlinear_arith);
    }
}

proof fn opaque_rows(dib: Seq<u8>, info: Info, rows: int)
    requires
        rows >= 0,
    ensures
        picture_rows(dib, info, false, rows).len() % 4 == 0,
        forall|i: int|
            0 <= i < picture_rows(dib, info, false, rows).len() && i % 4 == 3
                ==> #[trigger] picture_rows(dib, info, false, rows)[i] == 0xFF,
    decreases rows,
{
    if rows > 0 {
        opaque_rows(dib, info, rows - 1);
        let before = picture_rows(dib, info, false, rows - 1);
        let row = picture_row(dib, info, false, rows - 1);
        let all = picture_rows(dib, info, false, rows);
        assert forall|i: int| 0 <= i < all.len() && i % 4 == 3 implies #[trigger] all[i]
            == 0xFF by {
            if i >= before.len() {
                assert(all[i] == row[i - before.len()]);
            }
        }
    }
}

/// A bitmap with nothing in its fourth bytes, or with none, shows an opaque
/// picture, not an invisible one.
pub proof fn a_bitmap_with_no_alpha_set_is_opaque(dib: Seq<u8>)
    requires
        picture_in(dib) is Ok,
        !has_alpha(dib, header_info(dib)->Ok_0),
    ensures
        forall|i: int|
            0 <= i < picture_in(dib)->Ok_0.rgba.len() && i % 4 == 3
                ==> #[trigger] picture_in(dib)->Ok_0.rgba[i] == 0xFF,
{
    let info = header_info(dib)->Ok_0;
    opaque_rows(dib, info, info.height as int);
}

/// A picture that comes as a bitmap of the older form, with three masks behind
/// its header, is the picture it was made of: the masks are no pixels. Nobody
/// here writes that form, and many do elsewhere.
pub proof fn masks_behind_a_header_are_passed_over(frame: FrameView, masks: Seq<u8>, x: int, y: int)
    requires
        masks.len() == 12,
        frame.width < 0x8000_0000,
        frame.height < 0x8000_0000,
        0 <= x < frame.width,
        0 <= y < frame.height,
        component(frame, y * frame.width + x, 3) != 0,
    ensures
        ({
            let dib = bitmap(header_start(40, frame, 3) + masks, frame);
            &&& header_info(dib) is Ok
            &&& header_info(dib)->Ok_0.pixels_at == 52
            &&& picture_in(dib) == Ok::<PictureView, Seq<char>>(picture(frame))
        }),
{
    shows_the_picture(40, 3, masks, frame, x, y);
    let start = header_start(40, frame, 3);
    let rows = bitmap_rows(frame, frame.height as int);
    header_reads_back(40, frame, 3, masks + rows);
    assert(bitmap(start + masks, frame) =~= start + (masks + rows));
    stored_byte(frame, frame.height as int, 0, 0);
}

// --- byte by byte -----------------------------------------------------------------

/// Four bytes as a number, the least first.
pub open spec fn word(s: Seq<u8>, at: int) -> int {
    s[at] + 0x100 * s[at + 1] + 0x1_0000 * s[at + 2] + 0x100_0000 * s[at + 3]
}

pub open spec fn half_word(s: Seq<u8>, at: int) -> int {
    s[at] + 0x100 * s[at + 1]
}

proof fn rows_follow_each_other(dib: Seq<u8>, info: Info, alpha: bool, rows: int, y: int, k: int)
    requires
        0 <= y < rows,
        0 <= k < 4 * info.width,
    ensures
        picture_rows(dib, info, alpha, rows).len() == rows * (4 * info.width),
        0 <= y * (4 * info.width),
        y * (4 * info.width) + k < rows * (4 * info.width),
        picture_rows(dib, info, alpha, rows)[y * (4 * info.width) + k] == shown(
            dib,
            info,
            alpha,
            y,
            k,
        ),
    decreases rows,
{
    let w4 = 4 * info.width as int;
    let before = picture_rows(dib, info, alpha, rows - 1);
    if rows == 1 {
        assert(before =~= seq![]);
        assert(1 * w4 == w4);
        assert(0 * w4 == 0);
    } else {
        rows_follow_each_other(dib, info, alpha, rows - 1, if y < rows - 1 { y } else { 0 }, k);
        assert((rows - 1) * w4 + w4 == rows * w4) by (nonlinear_arith);
        assert(0 <= y * w4 && y * w4 + w4 <= rows * w4) by (nonlinear_arith)
            requires
                0 <= y < rows,
                w4 >= 0,
        ;
        if y < rows - 1 {
            assert(y * w4 + w4 <= (rows - 1) * w4) by (nonlinear_arith)
                requires
                    y < rows - 1,
                    w4 >= 0,
            ;
        }
    }
}

/// Which bitmaps can be read, by the numbers in their headers.
pub open spec fn readable(dib: Seq<u8>) -> bool {
    let bits = half_word(dib, 14);
    let size = word(dib, 0);
    &&& dib.len() >= 40
    &&& 40 <= size <= dib.len()
    &&& 0 < word(dib, 4) < 0x8000_0000
    &&& word(dib, 8) != 0
    &&& bits == 24 || bits == 32
    &&& word(dib, 16) == 0 || word(dib, 16) == 3
    &&& first_pixel(dib) < dib.len()
    &&& first_pixel(dib) + line(dib) * tall(dib) <= dib.len()
}

/// The number of rows: a height below zero says that they run downwards.
pub open spec fn tall(dib: Seq<u8>) -> int {
    if word(dib, 8) < 0x8000_0000 {
        word(dib, 8)
    } else {
        0x1_0000_0000 - word(dib, 8)
    }
}

/// Behind the header, three masks if the header is of the old form and says so,
/// and a palette.
pub open spec fn first_pixel(dib: Seq<u8>) -> int {
    word(dib, 0) + (if word(dib, 0) == 40 && word(dib, 16) == 3 {
        12int
    } else {
        0
    }) + 4 * word(dib, 32)
}

/// The bytes of a row and what fills them up to the next multiple of four.
pub open spec fn line(dib: Seq<u8>) -> int {
    let filled = word(dib, 4) * (half_word(dib, 14) / 8);
    filled + (4 - filled % 4) % 4
}

/// Where a pixel is stored. Rows run upwards unless the height is below zero.
pub open spec fn pixel_at(dib: Seq<u8>, x: int, y: int) -> int {
    first_pixel(dib) + (if word(dib, 8) < 0x8000_0000 {
        tall(dib) - 1 - y
    } else {
        y
    }) * line(dib) + x * (half_word(dib, 14) / 8)
}

/// Whether any fourth byte is set.
pub open spec fn some_alpha(dib: Seq<u8>) -> bool {
    half_word(dib, 14) == 32 && exists|x: int, y: int|
        0 <= x < word(dib, 4) && 0 <= y < tall(dib) && dib[#[trigger] pixel_at(dib, x, y) + 3] != 0
}

/// A bitmap is read exactly when its header makes sense and all of its rows are
/// there, and every pixel of the picture is the one that is stored for it: blue
/// first, and opaque unless some pixel says how transparent it is.
pub proof fn every_pixel_is_the_one_stored(dib: Seq<u8>, x: int, y: int)
    requires
        dib.len() <= usize::MAX,
    ensures
        picture_in(dib) is Ok <==> readable(dib),
        readable(dib) ==> picture_in(dib)->Ok_0.width == word(dib, 4) && picture_in(dib)->Ok_0.height
            == tall(dib) && picture_in(dib)->Ok_0.rgba.len() == tall(dib) * (4 * word(dib, 4)),
        readable(dib) && 0 <= x < word(dib, 4) && 0 <= y < tall(dib) ==> ({
            let rgba = picture_in(dib)->Ok_0.rgba;
            let p = y * (4 * word(dib, 4)) + 4 * x;
            let at = pixel_at(dib, x, y);
            &&& 0 <= p < rgba.len() - 3
            &&& rgba[p] == dib[at + 2]
            &&& rgba[p + 1] == dib[at + 1]
            &&& rgba[p + 2] == dib[at]
            &&& rgba[p + 3] == (if some_alpha(dib) {
                dib[at + 3]
            } else {
                0xFFu8
            })
        }),
{
    if dib.len() >= 40 {
        assert(number32(dib, 0) == word(dib, 0));
        assert(number32(dib, 4) == word(dib, 4));
        assert(number32(dib, 8) == word(dib, 8));
        assert(number32(dib, 16) == word(dib, 16));
        assert(number32(dib, 32) == word(dib, 32));
        assert(number16(dib, 14) == half_word(dib, 14));
    }
    if header_info(dib) is Ok {
        let info = header_info(dib)->Ok_0;
        let w = info.width as int;
        let h = info.height as int;
        assert(info.pixels_at == first_pixel(dib));
        assert(h == tall(dib));
        let b = pixel_bytes(info);
        assert(b == half_word(dib, 14) / 8);
        let filled = w * b;
        assert((filled + 3) / 4 * 4 == filled + (4 - filled % 4) % 4);
        assert(stride(info) == line(dib));
        assert(stride(info) * h == line(dib) * tall(dib));
        if readable(dib) {
            let alpha = has_alpha(dib, info);
            the_fourth_bytes(dib, info);
            rows_follow_each_other(dib, info, alpha, h, 0, 0);
            if 0 <= x < w && 0 <= y < h {
                let p = y * (4 * w) + 4 * x;
                rows_follow_each_other(dib, info, alpha, h, y, 4 * x);
                rows_follow_each_other(dib, info, alpha, h, y, 4 * x + 1);
                rows_follow_each_other(dib, info, alpha, h, y, 4 * x + 2);
                rows_follow_each_other(dib, info, alpha, h, y, 4 * x + 3);
                assert((4 * x) / 4 == x && (4 * x) % 4 == 0);
                assert((4 * x + 1) / 4 == x && (4 * x + 1) % 4 == 1);
                assert((4 * x + 2) / 4 == x && (4 * x + 2) % 4 == 2);
                assert((4 * x + 3) / 4 == x && (4 * x + 3) % 4 == 3);
                assert(row_start(info, stored_row(info, y)) + x * b == pixel_at(dib, x, y));
            }
        }
    }
}

proof fn the_fourth_bytes(dib: Seq<u8>, info: Info)
    requires
        dib.len() <= usize::MAX,
        header_info(dib) == Ok::<Info, Seq<char>>(info),
        dib.len() >= 40,
        info.width == word(dib, 4),
        info.height == tall(dib),
        info.pixels_at == first_pixel(dib),
        info.bits_per_pixel == half_word(dib, 14),
        info.top_down == (word(dib, 8) >= 0x8000_0000),
        stride(info) == line(dib),
    ensures
        has_alpha(dib, info) == some_alpha(dib),
{
    let h = info.height as int;
    let l = line(dib);
    if info.bits_per_pixel == 32 {
        assert(half_word(dib, 14) / 8 == 4);
        if has_alpha(dib, info) {
            let (row, x) = choose|row: int, x: int|
                0 <= row < info.height && 0 <= x < info.width && #[trigger] fourth(
                    dib,
                    info,
                    row,
                    x,
                ) != 0;
            let y = if info.top_down {
                row
            } else {
                h - 1 - row
            };
            assert((if word(dib, 8) < 0x8000_0000 {
                tall(dib) - 1 - y
            } else {
                y
            }) * l == row * l);
            assert(pixel_at(dib, x, y) == row_start(info, row) + x * 4);
            assert(dib[pixel_at(dib, x, y) + 3] != 0);
        }
        if some_alpha(dib) {
            let (x, y) = choose|x: int, y: int|
                0 <= x < word(dib, 4) && 0 <= y < tall(dib) && dib[#[trigger] pixel_at(dib, x, y) + 3]
                    != 0;
            let row = if info.top_down {
                y
            } else {
                h - 1 - y
            };
            assert((if word(dib, 8) < 0x8000_0000 {
                tall(dib) - 1 - y
            } else {
                y
            }) * l == row * l);
            assert(pixel_at(dib, x, y) == row_start(info, row) + x * 4);
            assert(fourth(dib, info, row, x) != 0);
        }
    }
}

/// A bitmap made here says how large it is, that its rows run upwards and that
/// it has four bytes a pixel; the later form says besides where each colour and
/// the alpha lie, and that the colours are sRGB.
pub proof fn what_a_bitmap_made_here_says(frame: FrameView)
    ensures
        ({
            let h = header_v3(frame);
            let m = header_v5(frame);
            &&& h.len() == 40 && m.len() == 124
            &&& word(h, 0) == 40 && word(m, 0) == 124
            &&& word(h, 4) == frame.width && word(m, 4) == frame.width
            &&& word(h, 8) == frame.height && word(m, 8) == frame.height
            &&& half_word(h, 12) == 1 && half_word(m, 12) == 1
            &&& half_word(h, 14) == 32 && half_word(m, 14) == 32
            &&& word(h, 16) == 0 && word(m, 16) == 3
            &&& word(h, 20) == 4 * frame.width * frame.height % 0x1_0000_0000
            &&& word(m, 20) == 4 * frame.width * frame.height % 0x1_0000_0000
            &&& word(h, 32) == 0 && word(m, 32) == 0
            &&& word(m, 40) == 0x00FF_0000
            &&& word(m, 44) == 0x0000_FF00
            &&& word(m, 48) == 0x0000_00FF
            &&& word(m, 52) == 0xFF00_0000
            &&& word(m, 56) == 0x7352_4742
        }),
{
    what_a_header_says(40, frame, 0, Seq::empty());
    assert(header_v3(frame) + Seq::<u8>::empty() =~= header_v3(frame));
    what_a_header_says(124, frame, 3, masks_v5());
    header_bytes(124, frame, 3);
    masks_len();
    the_masks_say(header_start(124, frame, 3));
}

proof fn the_masks_say(start: Seq<u8>)
    requires
        start.len() == 40,
    ensures
        ({
            let m = start + masks_v5();
            &&& word(m, 40) == 0x00FF_0000
            &&& word(m, 44) == 0x0000_FF00
            &&& word(m, 48) == 0x0000_00FF
            &&& word(m, 52) == 0xFF00_0000
            &&& word(m, 56) == 0x7352_4742
        }),
{
    let m = start + masks_v5();
    let a = le32(0x00FF_0000);
    let b = a + le32(0x0000_FF00);
    let c = b + le32(0x0000_00FF);
    let d = c + le32(0xFF00_0000);
    let e = d + le32(0x7352_4742);
    assert(masks_v5() == e + zeros(64));
    assert(m.subrange(40, 60) =~= e);
    assert(e.take(16) =~= d);
    assert(d.take(12) =~= c);
    assert(c.take(8) =~= b);
    assert(b.take(4) =~= a);
    assert(m.subrange(40, 56) =~= e.take(16));
    assert(m.subrange(40, 52) =~= m.subrange(40, 56).take(12));
    assert(m.subrange(40, 48) =~= m.subrange(40, 52).take(8));
    assert(m.subrange(40, 44) =~= m.subrange(40, 48).take(4));
    assert(m.subrange(44, 48) =~= m.subrange(40, 48).skip(4));
    assert(b.skip(4) =~= le32(0x0000_FF00));
    assert(m.subrange(48, 52) =~= m.subrange(40, 52).skip(8));
    assert(c.skip(8) =~= le32(0x0000_00FF));
    assert(m.subrange(52, 56) =~= m.subrange(40, 56).skip(12));
    assert(d.skip(12) =~= le32(0xFF00_0000));
    assert(m.subrange(56, 60) =~= m.subrange(40, 60).skip(16));
    assert(e.skip(16) =~= le32(0x7352_4742));
    field32(m, 40, 0x00FF_0000);
    field32(m, 44, 0x0000_FF00);
    field32(m, 48, 0x0000_00FF);
    field32(m, 52, 0xFF00_0000);
    field32(m, 56, 0x7352_4742);
}

proof fn what_a_header_says(size: u32, frame: FrameView, compression: u32, more: Seq<u8>)
    ensures
        ({
            let h = header_start(size, frame, compression) + more;
            &&& h.len() == 40 + more.len()
            &&& word(h, 0) == size
            &&& word(h, 4) == frame.width
            &&& word(h, 8) == frame.height
            &&& half_word(h, 12) == 1
            &&& half_word(h, 14) == 32
            &&& word(h, 16) == compression
            &&& word(h, 20) == 4 * frame.width * frame.height % 0x1_0000_0000
            &&& word(h, 32) == 0
        }),
{
    header_reads_back(size, frame, compression, more);
    let h = header_start(size, frame, compression);
    let bytes = (4 * frame.width * frame.height % 0x1_0000_0000) as u32;
    let p = le32(size) + le32(frame.width) + le32(frame.height) + le16(1);
    let q = p + le16(32) + le32(compression) + le32(bytes);
    assert(p.len() == 14);
    assert(p[12] == le16(1)[0] && p[13] == le16(1)[1]);
    assert(q.take(14) =~= p);
    assert(q.len() == 24);
    assert(q.subrange(20, 24) =~= le32(bytes));
    assert(h == q + le32(0) + le32(0) + le32(0) + le32(0));
    assert(h.take(24) =~= q);
    let dib = h + more;
    assert(dib.subrange(20, 24) =~= q.subrange(20, 24));
    field32(dib, 20, bytes);
    assert(dib[12] == h.take(24)[12] && dib[13] == h.take(24)[13]);
    assert(q[12] == q.take(14)[12] && q[13] == q.take(14)[13]);
}

/// The pixels of a bitmap made here are those of the frame, row by row from the
/// bottom, blue first, and opaque where the frame has no alpha.
pub proof fn every_pixel_is_stored(frame: FrameView, header: Seq<u8>, x: int, y: int)
    requires
        frame.color == 2 || frame.color == 6,
        0 <= x < frame.width,
        0 <= y < frame.height,
    ensures
        ({
            let dib = bitmap(header, frame);
            let w = frame.width as int;
            let at = header.len() + (frame.height - 1 - y) * (4 * w) + 4 * x;
            let size: int = if frame.color == 6 {
                4
            } else {
                3
            };
            let from = (y * w + x) * size;
            &&& dib.len() == header.len() + frame.height * (4 * w)
            &&& header.len() <= at < dib.len() - 3
            &&& dib[at] == frame.pixels[from + 2]
            &&& dib[at + 1] == frame.pixels[from + 1]
            &&& dib[at + 2] == frame.pixels[from]
            &&& dib[at + 3] == (if frame.color == 6 {
                frame.pixels[from + 3]
            } else {
                0xFFu8
            })
        }),
{
    let h = frame.height as int;
    let r = h - 1 - y;
    stored_byte(frame, h, r, 4 * x);
    stored_byte(frame, h, r, 4 * x + 1);
    stored_byte(frame, h, r, 4 * x + 2);
    stored_byte(frame, h, r, 4 * x + 3);
    assert((4 * x) / 4 == x && (4 * x) % 4 == 0);
    assert((4 * x + 1) / 4 == x && (4 * x + 1) % 4 == 1);
    assert((4 * x + 2) / 4 == x && (4 * x + 2) % 4 == 2);
    assert((4 * x + 3) / 4 == x && (4 * x + 3) % 4 == 3);
}

/// Only pictures of three or four channels and eight bits each are converted.
pub proof fn which_frames_are_converted(frame: FrameView)
    ensures
        unconvertible(frame) is None <==> (frame.color == 2 || frame.color == 6) && frame.depth == 8,
{
}

} // verus!
