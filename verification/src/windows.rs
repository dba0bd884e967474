//! The Windows clipboard: what is on it, in which of its forms, and what is
//! promised on it.
//!
//! Contents are offered without being supplied. Windows lets a format be
//! promised and produced only if something actually pastes it, which is what
//! allows a large image to be shared without reading it first.

use vstd::prelude::*;
use vstd::utf8::encode_utf8;

use crate::bytes::{add_le16, bytes_between, mark_at, mark_at_finds};
use crate::clipboard::{Available, ClipboardError, ClipboardErrorView};
use crate::files::{
    drop_list, dropped_paths, hdrop_to_uri_list, is_utf16, paths_named, text_in, unit_bytes, units,
    units_of, uri_lines, uri_list_to_hdrop, utf16_is_one_to_one, utf16_text, utf8_text,
    wide_text_in,
};
use crate::files_laws::{unit_bytes_read_back, utf16_has_no_null};
use crate::html::{self, unwrapped, wrapped, AFTER_LEN, BEFORE_LEN, HEADER_LEN};
use crate::image::{
    bitmap, dib_to_png, frame_in, header_v3, picture_in, png_to_dib, png_written, trouble,
    unconvertible,
};
use crate::proto::{copy_of, ClipFormat, FormatView};
use crate::table::{keyed, listed, stored, stored_reads_back, value_of, Table};
use crate::text::{chars_of, lines, utf16, utf16_of};

verus! {

/// How long to keep trying to open the clipboard, in milliseconds.
///
/// Every application that copies or pastes holds it for a moment, so a refusal
/// is ordinary rather than a failure. Giving up at once would make sharing
/// unreliable in precisely the way this exists to fix.
pub const OPEN_PATIENCE: u64 = 500;

pub const CF_DIB: u32 = 8;

pub const CF_UNICODETEXT: u32 = 13;

pub const CF_HDROP: u32 = 15;

/// The clipboard format numbers that have to be registered by name.
#[derive(Clone, Copy, Debug, PartialEq, Eq, Structural)]
pub struct Formats {
    pub html: u32,
    /// Some applications offer PNG directly, which spares a conversion.
    pub png: u32,
}

// --- which forms there are --------------------------------------------------------

/// The Windows format numbers a format can be supplied as. A picture is offered
/// both ways: applications differ on which they ask for.
pub open spec fn native(formats: Formats, format: FormatView) -> Seq<u32> {
    match format {
        FormatView::Text => seq![CF_UNICODETEXT],
        FormatView::Html => seq![formats.html],
        FormatView::Png => seq![formats.png, CF_DIB],
        FormatView::Uris => seq![CF_HDROP],
        FormatView::Other(_) => seq![],
    }
}

/// The Windows format numbers one of our formats can be supplied as.
pub fn native_ids(formats: Formats, format: &ClipFormat) -> (r: Vec<u32>)
    ensures
        r@ == native(formats, format.deep_view()),
{
    let mut r: Vec<u32> = Vec::new();
    match format {
        ClipFormat::Text => r.push(CF_UNICODETEXT),
        ClipFormat::Html => r.push(formats.html),
        ClipFormat::Png => {
            r.push(formats.png);
            r.push(CF_DIB);
        },
        ClipFormat::Uris => r.push(CF_HDROP),
        ClipFormat::Other(_) => {},
    }
    assert(r@ =~= native(formats, format.deep_view()));
    r
}

/// The format, where one of these numbers is on the clipboard.
pub open spec fn if_any(present: Seq<u32>, ids: Seq<u32>, format: FormatView) -> Seq<FormatView> {
    if exists|i: int| 0 <= i < ids.len() && present.contains(#[trigger] ids[i]) {
        seq![format]
    } else {
        seq![]
    }
}

/// What is on a clipboard that has these numbers on it.
pub open spec fn formats_present(formats: Formats, present: Seq<u32>) -> Seq<FormatView> {
    if_any(present, native(formats, FormatView::Text), FormatView::Text) + if_any(
        present,
        native(formats, FormatView::Html),
        FormatView::Html,
    ) + if_any(present, native(formats, FormatView::Png), FormatView::Png) + if_any(
        present,
        native(formats, FormatView::Uris),
        FormatView::Uris,
    )
}

fn add_present(formats: Formats, present: &Vec<u32>, format: ClipFormat, out: &mut Vec<ClipFormat>)
    ensures
        final(out).deep_view() == old(out).deep_view() + if_any(
            present@,
            native(formats, format.deep_view()),
            format.deep_view(),
        ),
{
    let ids: Vec<u32> = native_ids(formats, &format);
    let ghost fv = format.deep_view();
    let ghost before = out.deep_view();
    assert(present.deep_view() =~= present@);
    let mut found: bool = false;
    let mut i: usize = 0;
    while i < ids.len() && !found
        invariant
            i <= ids.len(),
            present.deep_view() == present@,
            found ==> exists|k: int| 0 <= k < ids@.len() && present@.contains(#[trigger] ids@[k]),
            !found ==> forall|k: int| 0 <= k < i ==> !present@.contains(#[trigger] ids@[k]),
        decreases ids.len() - i,
    {
        if listed(present, &ids[i]) {
            assert(present@.contains(ids@[i as int]));
            found = true;
        }
        i += 1;
    }
    if found {
        out.push(format);
        assert(out.deep_view() =~= before + seq![fv]);
    } else {
        assert(out.deep_view() =~= before + Seq::<FormatView>::empty());
    }
}

/// The numbers to ask the clipboard about.
pub fn asked_about(formats: Formats) -> (r: Vec<u32>)
    ensures
        r@ == seq![CF_UNICODETEXT, formats.html, formats.png, CF_DIB, CF_HDROP],
{
    let mut r: Vec<u32> = Vec::new();
    r.push(CF_UNICODETEXT);
    r.push(formats.html);
    r.push(formats.png);
    r.push(CF_DIB);
    r.push(CF_HDROP);
    assert(r@ =~= seq![CF_UNICODETEXT, formats.html, formats.png, CF_DIB, CF_HDROP]);
    r
}

/// What is on the clipboard, where these are the numbers on it.
pub fn available_now(formats: Formats, present: &Vec<u32>) -> (r: Available)
    ensures
        r.formats.deep_view() == formats_present(formats, present@),
{
    let mut out: Vec<ClipFormat> = Vec::new();
    assert(out.deep_view() =~= seq![]);
    add_present(formats, present, ClipFormat::Text, &mut out);
    assert(out.deep_view() =~= if_any(
        present@,
        native(formats, FormatView::Text),
        FormatView::Text,
    ));
    add_present(formats, present, ClipFormat::Html, &mut out);
    add_present(formats, present, ClipFormat::Png, &mut out);
    add_present(formats, present, ClipFormat::Uris, &mut out);
    Available { formats: out }
}

// --- reading ------------------------------------------------------------------------

/// The text in what Windows keeps text as: up to the null that ends it.
pub open spec fn wide_contents(raw: Seq<u8>) -> Seq<u8> {
    let u = units(raw);
    encode_utf8(utf16_text(u.take(mark_at(u, 0))))
}

/// What Windows keeps text as.
pub open spec fn wide_form(bytes: Seq<u8>) -> Seq<u8> {
    unit_bytes(utf16(utf8_text(bytes)).push(0))
}

/// The picture in a bitmap, as PNG.
pub open spec fn png_from(dib: Seq<u8>) -> Result<Seq<u8>, ClipboardErrorView> {
    match picture_in(dib) {
        Ok(picture) => match png_written(picture) {
            Ok(png) => Ok(png),
            Err(why) => Err(trouble("could not write a PNG: "@, why)),
        },
        Err(why) => Err(crate::image::complaint(why)),
    }
}

/// The picture in a PNG, as a bitmap.
pub open spec fn dib_from(png: Seq<u8>) -> Result<Seq<u8>, ClipboardErrorView> {
    match frame_in(png) {
        Ok(frame) => match unconvertible(frame) {
            Some(why) => Err(ClipboardErrorView::Display(why)),
            None => Ok(bitmap(header_v3(frame), frame)),
        },
        Err(why) => Err(ClipboardErrorView::Display(why)),
    }
}

/// The files of a drop list, one URI per line.
pub open spec fn uris_from(hdrop: Seq<u8>) -> Result<Seq<u8>, ClipboardErrorView> {
    match dropped_paths(hdrop) {
        Ok(paths) => Ok(uri_lines(paths)),
        Err(why) => Err(crate::files::complaint(why)),
    }
}

/// The drop list of some URIs.
pub open spec fn hdrop_from(uri_list: Seq<u8>) -> Result<Seq<u8>, ClipboardErrorView> {
    let paths = paths_named(lines(utf8_text(uri_list)), true);
    if paths.len() == 0 {
        Err(crate::files::complaint("it names no files"@))
    } else {
        Ok(drop_list(paths))
    }
}

pub open spec fn result_view(r: Result<Vec<u8>, ClipboardError>) -> Result<
    Seq<u8>,
    ClipboardErrorView,
> {
    match r {
        Ok(bytes) => Ok(bytes@),
        Err(e) => Err(e.deep_view()),
    }
}

/// What comes of reading one of the forms of a format.
#[derive(Debug, PartialEq, Eq)]
pub enum Reading {
    /// The format, or why it is not to be had.
    Done(Result<Vec<u8>, ClipboardError>),
    /// Read the other form instead.
    Try(u32),
}

#[verifier::ext_equal]
pub enum ReadingView {
    Done(Result<Seq<u8>, ClipboardErrorView>),
    Try(u32),
}

impl DeepView for Reading {
    type V = ReadingView;

    open spec fn deep_view(&self) -> ReadingView {
        match self {
            Reading::Done(r) => ReadingView::Done(result_view(*r)),
            Reading::Try(id) => ReadingView::Try(*id),
        }
    }
}

/// The first form to read a format in; a picture in the one that needs no
/// conversion.
pub open spec fn first_form(formats: Formats, format: FormatView) -> ReadingView {
    let ids = native(formats, format);
    if ids.len() > 0 {
        ReadingView::Try(ids[0])
    } else {
        ReadingView::Done(Err(ClipboardErrorView::Refused(format)))
    }
}

/// What a form that was read makes; `second` where it is the other form of a
/// picture.
pub open spec fn converted(
    format: FormatView,
    second: bool,
    raw: Result<Seq<u8>, ClipboardErrorView>,
) -> ReadingView {
    match (format, raw) {
        (FormatView::Other(_), _) => ReadingView::Done(Err(ClipboardErrorView::Refused(format))),
        (FormatView::Png, _) if !second => match raw {
            Ok(png) => if png.len() > 0 {
                ReadingView::Done(Ok(png))
            } else {
                ReadingView::Try(CF_DIB)
            },
            Err(_) => ReadingView::Try(CF_DIB),
        },
        (_, Err(e)) => ReadingView::Done(Err(e)),
        (FormatView::Text, Ok(raw)) => ReadingView::Done(Ok(wide_contents(raw))),
        (FormatView::Html, Ok(raw)) => ReadingView::Done(Ok(unwrapped(raw))),
        (FormatView::Png, Ok(raw)) => ReadingView::Done(png_from(raw)),
        (FormatView::Uris, Ok(raw)) => ReadingView::Done(uris_from(raw)),
    }
}

/// Which form to read first for one of our formats.
pub fn begin_reading(formats: Formats, format: &ClipFormat) -> (r: Reading)
    ensures
        r.deep_view() == first_form(formats, format.deep_view()),
{
    let ids: Vec<u32> = native_ids(formats, format);
    if ids.len() > 0 {
        Reading::Try(ids[0])
    } else {
        Reading::Done(Err(ClipboardError::Refused(format.clone())))
    }
}

fn text_from(raw: &[u8]) -> (r: Vec<u8>)
    ensures
        r@ == wide_contents(raw@),
{
    let all: Vec<u16> = units_of(raw, 0);
    proof {
        assert(raw@.skip(0) =~= raw@);
        mark_at_finds(all@, 0u16);
        assert(all@.skip(0) =~= all@);
    }
    let mut text: Vec<u16> = Vec::new();
    let mut i: usize = 0;
    while i < all.len() && all[i] != 0
        invariant
            i <= all.len(),
            text@ =~= all@.take(i as int),
            mark_at(all@, 0u16) == i + mark_at(all@.skip(i as int), 0u16),
        decreases all.len() - i,
    {
        proof {
            assert(all@.skip(i as int)[0] == all@[i as int]);
            assert(all@.skip(i as int).drop_first() =~= all@.skip(i + 1));
        }
        text.push(all[i]);
        i += 1;
    }
    proof {
        if i < all.len() {
            assert(all@.skip(i as int)[0] == all@[i as int]);
        }
        assert(mark_at(all@, 0u16) == i);
    }
    let shown: String = wide_text_in(text.as_slice());
    let bytes: &[u8] = shown.as_str().as_bytes();
    let r: Vec<u8> = bytes_between(bytes, 0, bytes.len());
    assert(r@ =~= bytes@);
    r
}

/// What a form that was read makes, or which form to read instead.
pub fn after_reading(
    format: &ClipFormat,
    second: bool,
    raw: Result<Vec<u8>, ClipboardError>,
) -> (r: Reading)
    ensures
        r.deep_view() == converted(format.deep_view(), second, result_view(raw)),
{
    match format {
        ClipFormat::Other(_) => {
            return Reading::Done(Err(ClipboardError::Refused(format.clone())));
        },
        ClipFormat::Png => {
            if !second {
                // Prefer the form that needs no conversion.
                return match raw {
                    Ok(png) => if png.len() > 0 {
                        Reading::Done(Ok(png))
                    } else {
                        Reading::Try(CF_DIB)
                    },
                    Err(_) => Reading::Try(CF_DIB),
                };
            }
        },
        _ => {},
    }
    let raw: Vec<u8> = match raw {
        Ok(raw) => raw,
        Err(e) => {
            return Reading::Done(Err(e));
        },
    };
    match format {
        ClipFormat::Text => Reading::Done(Ok(text_from(raw.as_slice()))),
        ClipFormat::Html => Reading::Done(Ok(html::unwrap(raw.as_slice()))),
        ClipFormat::Png => Reading::Done(dib_to_png(raw.as_slice())),
        ClipFormat::Uris => Reading::Done(hdrop_to_uri_list(raw.as_slice())),
        ClipFormat::Other(_) => Reading::Done(Err(ClipboardError::Refused(format.clone()))),
    }
}

// --- writing ------------------------------------------------------------------------

/// A form of a format, under its number.
#[derive(Debug, PartialEq, Eq)]
pub struct Native {
    pub id: u32,
    pub bytes: Vec<u8>,
}

pub open spec fn native_view(r: Result<Native, ClipboardError>) -> Result<
    (u32, Seq<u8>),
    ClipboardErrorView,
> {
    match r {
        Ok(made) => Ok((made.id, made.bytes@)),
        Err(e) => Err(e.deep_view()),
    }
}

pub open spec fn under(id: u32, made: Result<Seq<u8>, ClipboardErrorView>) -> Result<
    (u32, Seq<u8>),
    ClipboardErrorView,
> {
    match made {
        Ok(bytes) => Ok((id, bytes)),
        Err(e) => Err(e),
    }
}

/// What is put on the clipboard for a format that was asked for by number.
pub open spec fn native_form(formats: Formats, format: FormatView, as_id: u32, bytes: Seq<u8>) -> Result<
    (u32, Seq<u8>),
    ClipboardErrorView,
> {
    match format {
        FormatView::Text => Ok((CF_UNICODETEXT, wide_form(bytes))),
        FormatView::Html => Ok((formats.html, wrapped(bytes))),
        FormatView::Png => if as_id == formats.png {
            Ok((formats.png, bytes))
        } else {
            under(CF_DIB, dib_from(bytes))
        },
        FormatView::Uris => under(CF_HDROP, hdrop_from(bytes)),
        FormatView::Other(_) => Err(ClipboardErrorView::Refused(format)),
    }
}

fn wide_bytes(bytes: &[u8]) -> (r: Vec<u8>)
    ensures
        r@ == wide_form(bytes@),
{
    let text: String = text_in(bytes);
    let mut all: Vec<u16> = utf16_of(&chars_of(text.as_str()));
    all.push(0);
    let mut r: Vec<u8> = Vec::new();
    let mut i: usize = 0;
    assert(all@.take(0) =~= seq![]);
    while i < all.len()
        invariant
            i <= all.len(),
            r@ == unit_bytes(all@.take(i as int)),
        decreases all.len() - i,
    {
        proof {
            assert(all@.take(i + 1).drop_last() =~= all@.take(i as int));
            assert(all@.take(i + 1).last() == all@[i as int]);
        }
        add_le16(&mut r, all[i]);
        i += 1;
    }
    assert(all@.take(i as int) =~= all@);
    r
}

/// What to put on the clipboard for a format that was asked for by number.
pub fn write_native(formats: Formats, format: &ClipFormat, as_id: u32, bytes: Vec<u8>) -> (r: Result<
    Native,
    ClipboardError,
>)
    requires
        HEADER_LEN + BEFORE_LEN + bytes@.len() + AFTER_LEN <= usize::MAX,
    ensures
        native_view(r) == native_form(formats, format.deep_view(), as_id, bytes@),
{
    match format {
        ClipFormat::Text => Ok(
            Native { id: CF_UNICODETEXT, bytes: wide_bytes(bytes.as_slice()) },
        ),
        ClipFormat::Html => Ok(Native { id: formats.html, bytes: html::wrap(bytes.as_slice()) }),
        ClipFormat::Png => {
            if as_id == formats.png {
                return Ok(Native { id: formats.png, bytes });
            }
            match png_to_dib(bytes.as_slice()) {
                Ok(bytes) => Ok(Native { id: CF_DIB, bytes }),
                Err(e) => Err(e),
            }
        },
        ClipFormat::Uris => match uri_list_to_hdrop(bytes.as_slice()) {
            Ok(bytes) => Ok(Native { id: CF_HDROP, bytes }),
            Err(e) => Err(e),
        },
        ClipFormat::Other(_) => Err(ClipboardError::Refused(format.clone())),
    }
}

// --- offering -----------------------------------------------------------------------

/// What comes of being asked for a promised format.
#[derive(Debug, PartialEq, Eq)]
pub enum Render {
    /// It was not promised.
    Nothing,
    /// It is here.
    Ready { format: ClipFormat, data: Vec<u8> },
    /// It has to be fetched, and handed to [`WindowsClipboard::supplied`].
    Fetch(ClipFormat),
}

#[verifier::ext_equal]
pub enum RenderView {
    Nothing,
    Ready { format: FormatView, data: Seq<u8> },
    Fetch(FormatView),
}

impl DeepView for Render {
    type V = RenderView;

    open spec fn deep_view(&self) -> RenderView {
        match self {
            Render::Nothing => RenderView::Nothing,
            Render::Ready { format, data } => RenderView::Ready {
                format: format.deep_view(),
                data: data@,
            },
            Render::Fetch(format) => RenderView::Fetch(format.deep_view()),
        }
    }
}

/// What is offered on the Windows clipboard on another machine's behalf.
pub struct WindowsClipboard {
    formats: Formats,
    /// What is currently being offered.
    offer: Option<Vec<ClipFormat>>,
    /// Anything already fetched, so a second paste does not fetch again.
    cache: Table<ClipFormat, Vec<u8>>,
    /// Set while this process is the one putting data on the clipboard, so its
    /// own change notification is not mistaken for someone else copying.
    ours: bool,
}

#[verifier::ext_equal]
pub struct WindowsView {
    pub formats: Formats,
    pub offer: Option<Seq<FormatView>>,
    pub cache: Seq<(FormatView, Seq<u8>)>,
    pub ours: bool,
}

impl View for WindowsClipboard {
    type V = WindowsView;

    closed spec fn view(&self) -> WindowsView {
        WindowsView {
            formats: self.formats,
            offer: self.offer.deep_view(),
            cache: self.cache.entries(),
            ours: self.ours,
        }
    }
}

/// The first of the formats that has this number.
pub open spec fn format_with(formats: Formats, offered: Seq<FormatView>, id: u32) -> Option<FormatView>
    decreases offered.len(),
{
    if offered.len() == 0 {
        None
    } else if native(formats, offered[0]).contains(id) {
        Some(offered[0])
    } else {
        format_with(formats, offered.drop_first(), id)
    }
}

/// The numbers of some formats, in order.
pub open spec fn ids_of(formats: Formats, offered: Seq<FormatView>) -> Seq<u32>
    decreases offered.len(),
{
    if offered.len() == 0 {
        seq![]
    } else {
        ids_of(formats, offered.drop_last()) + native(formats, offered.last())
    }
}

pub open spec fn rendered(w: WindowsView, id: u32) -> RenderView {
    match w.offer {
        Some(offered) => match format_with(w.formats, offered, id) {
            Some(format) => match value_of(w.cache, format) {
                Some(data) => RenderView::Ready { format, data },
                None => RenderView::Fetch(format),
            },
            None => RenderView::Nothing,
        },
        None => RenderView::Nothing,
    }
}

/// After the clipboard changed: our own offer coming round is no news, and
/// anything else ends it.
pub open spec fn changed(w: WindowsView) -> (WindowsView, bool) {
    if w.ours {
        (WindowsView { ours: false, ..w }, false)
    } else {
        (WindowsView { offer: None, cache: seq![], ..w }, true)
    }
}

pub open spec fn offers_something(w: WindowsView) -> bool {
    w.offer matches Some(offered) && offered.len() > 0
}

impl WindowsClipboard {
    pub closed spec fn wf(&self) -> bool {
        keyed(self@.cache)
    }

    pub fn new(formats: Formats) -> (r: WindowsClipboard)
        ensures
            r.wf(),
            r@ == (WindowsView { formats, offer: None, cache: seq![], ours: false }),
    {
        let r: WindowsClipboard = WindowsClipboard {
            formats,
            offer: None,
            cache: Table::new(),
            ours: false,
        };
        assert(r@.cache =~= seq![]);
        r
    }

    /// The clipboard has changed. Returns whether that is news: announcing our
    /// own offer would send the far machine's clipboard straight back to it.
    pub fn changed(&mut self) -> (news: bool)
        requires
            old(self).wf(),
        ensures
            final(self).wf(),
            (final(self)@, news) == changed(old(self)@),
    {
        if self.ours {
            self.ours = false;
            return false;
        }
        self.offer = None;
        self.cache = Table::new();
        assert(self@.cache =~= seq![]);
        true
    }

    /// Something else is to be offered.
    pub fn offer(&mut self, formats: Vec<ClipFormat>)
        requires
            old(self).wf(),
        ensures
            final(self).wf(),
            final(self)@ == (WindowsView {
                offer: Some(formats.deep_view()),
                cache: seq![],
                ..old(self)@
            }),
    {
        self.offer = Some(formats);
        self.cache = Table::new();
        assert(self@.cache =~= seq![]);
    }

    /// Stop offering, leaving the clipboard to whatever takes it next.
    pub fn release(&mut self)
        requires
            old(self).wf(),
        ensures
            final(self).wf(),
            final(self)@ == (WindowsView { offer: None, cache: seq![], ..old(self)@ }),
    {
        self.offer = None;
        self.cache = Table::new();
        assert(self@.cache =~= seq![]);
    }

    /// Whether there is anything to take the clipboard for.
    pub fn has_offer(&self) -> (r: bool)
        ensures
            r == offers_something(self@),
    {
        match &self.offer {
            Some(offered) => offered.len() > 0,
            None => false,
        }
    }

    /// The numbers of everything offered. Where the process is going away, each
    /// has to be made real now or it vanishes with it.
    pub fn promised(&self) -> (r: Vec<u32>)
        ensures
            r@ == match self@.offer {
                Some(offered) => ids_of(self@.formats, offered),
                None => seq![],
            },
    {
        let mut r: Vec<u32> = Vec::new();
        assert(r@ =~= seq![]);
        if let Some(offered) = &self.offer {
            let ghost every = offered.deep_view();
            let mut i: usize = 0;
            assert(every.take(0) =~= seq![]);
            while i < offered.len()
                invariant
                    i <= offered.len(),
                    every == offered.deep_view(),
                    r@ == ids_of(self.formats, every.take(i as int)),
                decreases offered.len() - i,
            {
                proof {
                    assert(every.take(i + 1).drop_last() =~= every.take(i as int));
                    assert(every.take(i + 1).last() == every[i as int]);
                }
                let mut more: Vec<u32> = native_ids(self.formats, &offered[i]);
                r.append(&mut more);
                i += 1;
            }
            assert(every.take(i as int) =~= every);
        }
        r
    }

    /// The clipboard has been taken and cleared for what is offered. Returns
    /// the numbers to promise.
    pub fn taken(&mut self) -> (r: Vec<u32>)
        requires
            old(self).wf(),
        ensures
            final(self).wf(),
            final(self)@ == (WindowsView { ours: true, ..old(self)@ }),
            r@ == match old(self)@.offer {
                Some(offered) => ids_of(old(self)@.formats, offered),
                None => seq![],
            },
    {
        self.ours = true;
        self.promised()
    }

    /// Something has asked for one promised number.
    pub fn render(&self, id: u32) -> (r: Render)
        ensures
            r.deep_view() == rendered(self@, id),
    {
        let offered: &Vec<ClipFormat> = match &self.offer {
            Some(offered) => offered,
            None => {
                return Render::Nothing;
            },
        };
        let ghost every = offered.deep_view();
        let mut i: usize = 0;
        assert(every.skip(0) =~= every);
        while i < offered.len()
            invariant
                i <= offered.len(),
                every == offered.deep_view(),
                self@.offer == Some(every),
                format_with(self.formats, every, id) == format_with(
                    self.formats,
                    every.skip(i as int),
                    id,
                ),
            decreases offered.len() - i,
        {
            proof {
                assert(every.skip(i as int)[0] == every[i as int]);
                assert(every.skip(i as int).drop_first() =~= every.skip(i + 1));
            }
            let ids: Vec<u32> = native_ids(self.formats, &offered[i]);
            assert(ids.deep_view() =~= ids@);
            if listed(&ids, &id) {
                let format: ClipFormat = offered[i].clone();
                return match self.cache.get(&format) {
                    Some(data) => {
                        assert(data.deep_view() =~= data@);
                        Render::Ready { format, data: copy_of(data) }
                    },
                    None => Render::Fetch(format),
                };
            }
            i += 1;
        }
        assert(every.skip(i as int).len() == 0);
        Render::Nothing
    }

    /// What was fetched has come; it is kept for the next paste.
    pub fn supplied(&mut self, format: ClipFormat, data: &Vec<u8>)
        requires
            old(self).wf(),
        ensures
            final(self).wf(),
            final(self)@ == (WindowsView {
                cache: stored(old(self)@.cache, format.deep_view(), data@),
                ..old(self)@
            }),
    {
        let kept: Vec<u8> = copy_of(data);
        assert(kept.deep_view() =~= data@);
        self.cache.insert(format, kept);
    }
}

// --- what holds of it -----------------------------------------------------------------

/// A text without a null in it is read back as it was put on the clipboard.
pub proof fn text_survives_the_windows_form(text: Seq<char>)
    requires
        !text.contains('\0'),
    ensures
        wide_contents(wide_form(encode_utf8(text))) == encode_utf8(text),
{
    vstd::utf8::encode_utf8_valid_utf8(text);
    vstd::utf8::encode_utf8_decode_utf8(text);
    let all = utf16(text).push(0);
    unit_bytes_read_back(all);
    utf16_has_no_null(text);
    mark_at_finds(all, 0u16);
    let n = mark_at(all, 0u16);
    assert(all[utf16(text).len() as int] == 0);
    if n < utf16(text).len() {
        assert(utf16(text)[n] == 0);
        assert(utf16(text).contains(0));
    }
    assert(all.take(n) =~= utf16(text));
    assert(is_utf16(utf16(text)));
    utf16_is_one_to_one(utf16_text(utf16(text)), text);
}

/// Taking the clipboard for an offer is not announced as a change, does not
/// end the offer, and the next change is announced again.
pub proof fn an_offer_is_not_announced_to_itself(w: WindowsView)
    requires
        w.ours,
    ensures
        !changed(w).1,
        changed(w).0.offer == w.offer,
        changed(changed(w).0).1,
{
}

/// The registered numbers are apart from each other and from the fixed ones.
pub open spec fn apart(formats: Formats) -> bool {
    &&& formats.html != formats.png
    &&& formats.html != CF_DIB && formats.html != CF_UNICODETEXT && formats.html != CF_HDROP
    &&& formats.png != CF_DIB && formats.png != CF_UNICODETEXT && formats.png != CF_HDROP
}

/// A number stands for one format.
pub proof fn a_number_names_one_format(formats: Formats, a: FormatView, b: FormatView, id: u32)
    requires
        apart(formats),
        native(formats, a).contains(id),
        native(formats, b).contains(id),
    ensures
        a == b,
{
}

/// Whatever is promised can be produced: each number promised is that of the
/// offered format it was promised for.
pub proof fn what_is_promised_is_produced(formats: Formats, offered: Seq<FormatView>, i: int, id: u32)
    requires
        apart(formats),
        0 <= i < offered.len(),
        native(formats, offered[i]).contains(id),
    ensures
        format_with(formats, offered, id) == Some(offered[i]),
    decreases offered.len(),
{
    if native(formats, offered[0]).contains(id) {
        a_number_names_one_format(formats, offered[0], offered[i], id);
    } else {
        assert(offered.drop_first()[i - 1] == offered[i]);
        what_is_promised_is_produced(formats, offered.drop_first(), i - 1, id);
    }
}

/// A second paste does not fetch again.
pub proof fn what_was_supplied_is_ready(w: WindowsView, format: FormatView, data: Seq<u8>, id: u32)
    requires
        w.offer matches Some(offered) && format_with(w.formats, offered, id) == Some(format),
    ensures
        rendered(WindowsView { cache: stored(w.cache, format, data), ..w }, id)
            == (RenderView::Ready { format, data }),
{
    stored_reads_back(w.cache, format, data, format);
}

} // verus!
