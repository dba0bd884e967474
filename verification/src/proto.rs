//! What the machines say to each other.

use vstd::prelude::*;

use crate::layout::DeviceId;
use crate::order::{Alike, Ranked};

verus! {

/// The most contents one message carries.
pub const MAX_CHUNK_DATA: usize = 65536;

// --- the clipboard ------------------------------------------------------

/// One copy: the machine it happened on, and which of its copies it was.
#[derive(Debug, Clone, Copy, PartialEq, Eq, PartialOrd, Ord, Hash)]
pub struct ClipSeq {
    pub device: DeviceId,
    pub counter: u64,
}

impl DeepView for ClipSeq {
    type V = ClipSeq;

    open spec fn deep_view(&self) -> ClipSeq {
        *self
    }
}

impl Alike for ClipSeq {
    fn same(&self, other: &ClipSeq) -> (r: bool) {
        self.counter == other.counter && self.device.same(&other.device)
    }
}

/// A form in which something copied can be had.
#[derive(Debug, PartialEq, Eq, PartialOrd, Ord, Hash)]
pub enum ClipFormat {
    Text,
    Html,
    Png,
    /// A list of files.
    Uris,
    Other(String),
}

pub enum FormatView {
    Text,
    Html,
    Png,
    Uris,
    Other(Seq<char>),
}

impl DeepView for ClipFormat {
    type V = FormatView;

    open spec fn deep_view(&self) -> FormatView {
        match self {
            ClipFormat::Text => FormatView::Text,
            ClipFormat::Html => FormatView::Html,
            ClipFormat::Png => FormatView::Png,
            ClipFormat::Uris => FormatView::Uris,
            ClipFormat::Other(name) => FormatView::Other(name@),
        }
    }
}

impl Clone for ClipFormat {
    fn clone(&self) -> (r: ClipFormat)
        ensures
            r.deep_view() == self.deep_view(),
    {
        match self {
            ClipFormat::Text => ClipFormat::Text,
            ClipFormat::Html => ClipFormat::Html,
            ClipFormat::Png => ClipFormat::Png,
            ClipFormat::Uris => ClipFormat::Uris,
            ClipFormat::Other(name) => ClipFormat::Other(name.clone()),
        }
    }
}

impl Alike for ClipFormat {
    fn same(&self, other: &ClipFormat) -> (r: bool) {
        match (self, other) {
            (ClipFormat::Text, ClipFormat::Text) => true,
            (ClipFormat::Html, ClipFormat::Html) => true,
            (ClipFormat::Png, ClipFormat::Png) => true,
            (ClipFormat::Uris, ClipFormat::Uris) => true,
            (ClipFormat::Other(a), ClipFormat::Other(b)) => a.same(b),
            _ => false,
        }
    }
}

/// Where a format stands among the others.
pub open spec fn format_rank(f: FormatView) -> int {
    match f {
        FormatView::Text => 0,
        FormatView::Html => 1,
        FormatView::Png => 2,
        FormatView::Uris => 3,
        FormatView::Other(_) => 4,
    }
}

fn rank_of(f: &ClipFormat) -> (r: u8)
    ensures
        r == format_rank(f.deep_view()),
{
    match f {
        ClipFormat::Text => 0,
        ClipFormat::Html => 1,
        ClipFormat::Png => 2,
        ClipFormat::Uris => 3,
        ClipFormat::Other(_) => 4,
    }
}

impl Ranked for ClipFormat {
    open spec fn before(a: FormatView, b: FormatView) -> bool {
        match (a, b) {
            (FormatView::Other(x), FormatView::Other(y)) => String::before(x, y),
            _ => format_rank(a) < format_rank(b),
        }
    }

    proof fn nothing_precedes_itself(a: FormatView) {
        if let FormatView::Other(x) = a {
            String::nothing_precedes_itself(x);
        }
    }

    proof fn precedence_chains(a: FormatView, b: FormatView, c: FormatView) {
        if let (FormatView::Other(x), FormatView::Other(y), FormatView::Other(z)) = (a, b, c) {
            String::precedence_chains(x, y, z);
        }
    }

    proof fn distinct_values_are_ordered(a: FormatView, b: FormatView) {
        if let (FormatView::Other(x), FormatView::Other(y)) = (a, b) {
            String::distinct_values_are_ordered(x, y);
        }
    }

    fn precedes(&self, other: &ClipFormat) -> (r: bool) {
        match (self, other) {
            (ClipFormat::Other(a), ClipFormat::Other(b)) => a.precedes(b),
            _ => rank_of(self) < rank_of(other),
        }
    }
}

/// A format of one particular copy.
#[derive(Debug)]
pub struct ClipKey {
    pub seq: ClipSeq,
    pub format: ClipFormat,
}

pub struct KeyView {
    pub seq: ClipSeq,
    pub format: FormatView,
}

impl DeepView for ClipKey {
    type V = KeyView;

    open spec fn deep_view(&self) -> KeyView {
        KeyView { seq: self.seq, format: self.format.deep_view() }
    }
}

impl Clone for ClipKey {
    fn clone(&self) -> (r: ClipKey)
        ensures
            r.deep_view() == self.deep_view(),
    {
        ClipKey { seq: self.seq, format: self.format.clone() }
    }
}

impl Alike for ClipKey {
    fn same(&self, other: &ClipKey) -> (r: bool) {
        self.seq.same(&other.seq) && self.format.same(&other.format)
    }
}

/// Why contents could not be handed over.
#[derive(Debug, Clone, Copy, PartialEq, Eq)]
pub enum ClipError {
    /// The copy has since been replaced.
    Stale,
    /// The application that copied it would not hand it over.
    OwnerRefused,
    TooLarge { bytes: u64, limit: u64 },
    /// The machine holding it went away, or the contents came out of step.
    Cancelled,
}

#[derive(Debug, PartialEq, Eq)]
pub struct ClipEntry {
    pub format: ClipFormat,
    pub bytes: Option<u64>,
    pub hash: Option<u64>,
}

pub struct EntryView {
    pub format: FormatView,
    pub bytes: Option<u64>,
    pub hash: Option<u64>,
}

impl DeepView for ClipEntry {
    type V = EntryView;

    open spec fn deep_view(&self) -> EntryView {
        EntryView { format: self.format.deep_view(), bytes: self.bytes, hash: self.hash }
    }
}

impl Clone for ClipEntry {
    fn clone(&self) -> (r: ClipEntry)
        ensures
            r.deep_view() == self.deep_view(),
    {
        ClipEntry { format: self.format.clone(), bytes: self.bytes, hash: self.hash }
    }
}

/// What is available of one copy.
#[derive(Debug, PartialEq, Eq)]
pub struct ClipOffer {
    pub seq: ClipSeq,
    pub entries: Vec<ClipEntry>,
}

#[verifier::ext_equal]
pub struct OfferView {
    pub seq: ClipSeq,
    pub entries: Seq<EntryView>,
}

impl DeepView for ClipOffer {
    type V = OfferView;

    open spec fn deep_view(&self) -> OfferView {
        OfferView { seq: self.seq, entries: self.entries.deep_view() }
    }
}

impl Clone for ClipOffer {
    fn clone(&self) -> (r: ClipOffer)
        ensures
            r.deep_view() == self.deep_view(),
    {
        let entries: Vec<ClipEntry> = self.entries.clone();
        assert(entries.deep_view() =~= self.entries.deep_view());
        ClipOffer { seq: self.seq, entries }
    }
}

// --- files --------------------------------------------------------------

/// One set of files on its way: the machine that has them, and which of its
/// sets it is.
#[derive(Debug, Clone, Copy, PartialEq, Eq, PartialOrd, Ord, Hash)]
pub struct TransferId {
    pub device: DeviceId,
    pub counter: u64,
}

impl DeepView for TransferId {
    type V = TransferId;

    open spec fn deep_view(&self) -> TransferId {
        *self
    }
}

impl Alike for TransferId {
    fn same(&self, other: &TransferId) -> (r: bool) {
        self.counter == other.counter && self.device.same(&other.device)
    }
}

/// A file or a folder of a set, by its path within the set.
#[derive(Debug, PartialEq, Eq)]
pub struct FileEntry {
    pub path: String,
    pub bytes: u64,
    pub is_dir: bool,
}

#[verifier::ext_equal]
pub struct FileView {
    pub path: Seq<char>,
    pub bytes: u64,
    pub is_dir: bool,
}

impl DeepView for FileEntry {
    type V = FileView;

    open spec fn deep_view(&self) -> FileView {
        FileView { path: self.path@, bytes: self.bytes, is_dir: self.is_dir }
    }
}

impl Clone for FileEntry {
    fn clone(&self) -> (r: FileEntry)
        ensures
            r.deep_view() == self.deep_view(),
    {
        FileEntry { path: self.path.clone(), bytes: self.bytes, is_dir: self.is_dir }
    }
}

/// Names and sizes of a set of files.
#[derive(Debug, PartialEq, Eq)]
pub struct FileOffer {
    pub id: TransferId,
    pub files: Vec<FileEntry>,
    pub total_bytes: u64,
}

#[verifier::ext_equal]
pub struct FileOfferView {
    pub id: TransferId,
    pub files: Seq<FileView>,
    pub total_bytes: u64,
}

impl DeepView for FileOffer {
    type V = FileOfferView;

    open spec fn deep_view(&self) -> FileOfferView {
        FileOfferView {
            id: self.id,
            files: self.files.deep_view(),
            total_bytes: self.total_bytes,
        }
    }
}

impl Clone for FileOffer {
    fn clone(&self) -> (r: FileOffer)
        ensures
            r.deep_view() == self.deep_view(),
    {
        let files: Vec<FileEntry> = self.files.clone();
        assert(files.deep_view() =~= self.files.deep_view());
        FileOffer { id: self.id, files, total_bytes: self.total_bytes }
    }
}

// --- both ---------------------------------------------------------------

/// Traffic that may wait behind the keyboard and the mouse.
#[allow(inconsistent_fields)]
#[derive(Debug, PartialEq, Eq)]
pub enum Bulk {
    ClipOffer(ClipOffer),
    ClipRequest { seq: ClipSeq, format: ClipFormat, offset: u64 },
    ClipChunk { seq: ClipSeq, format: ClipFormat, offset: u64, data: Vec<u8>, last: bool },
    ClipUnavailable { seq: ClipSeq, format: ClipFormat, reason: ClipError },
    ClipCancel { seq: ClipSeq, format: ClipFormat },
    FileOffer(FileOffer),
    FileRequest { id: TransferId, index: u32, offset: u64 },
    FileChunk { id: TransferId, index: u32, offset: u64, data: Vec<u8>, last: bool },
    FileDone { id: TransferId },
    FileAbort { id: TransferId, reason: String },
}

#[allow(inconsistent_fields)]
#[verifier::ext_equal]
pub enum BulkView {
    ClipOffer(OfferView),
    ClipRequest { seq: ClipSeq, format: FormatView, offset: u64 },
    ClipChunk { seq: ClipSeq, format: FormatView, offset: u64, data: Seq<u8>, last: bool },
    ClipUnavailable { seq: ClipSeq, format: FormatView, reason: ClipError },
    ClipCancel { seq: ClipSeq, format: FormatView },
    FileOffer(FileOfferView),
    FileRequest { id: TransferId, index: u32, offset: u64 },
    FileChunk { id: TransferId, index: u32, offset: u64, data: Seq<u8>, last: bool },
    FileDone { id: TransferId },
    FileAbort { id: TransferId, reason: Seq<char> },
}

impl DeepView for Bulk {
    type V = BulkView;

    open spec fn deep_view(&self) -> BulkView {
        match self {
            Bulk::ClipOffer(o) => BulkView::ClipOffer(o.deep_view()),
            Bulk::ClipRequest { seq, format, offset } => BulkView::ClipRequest {
                seq: *seq,
                format: format.deep_view(),
                offset: *offset,
            },
            Bulk::ClipChunk { seq, format, offset, data, last } => BulkView::ClipChunk {
                seq: *seq,
                format: format.deep_view(),
                offset: *offset,
                data: data@,
                last: *last,
            },
            Bulk::ClipUnavailable { seq, format, reason } => BulkView::ClipUnavailable {
                seq: *seq,
                format: format.deep_view(),
                reason: *reason,
            },
            Bulk::ClipCancel { seq, format } => BulkView::ClipCancel {
                seq: *seq,
                format: format.deep_view(),
            },
            Bulk::FileOffer(o) => BulkView::FileOffer(o.deep_view()),
            Bulk::FileRequest { id, index, offset } => BulkView::FileRequest {
                id: *id,
                index: *index,
                offset: *offset,
            },
            Bulk::FileChunk { id, index, offset, data, last } => BulkView::FileChunk {
                id: *id,
                index: *index,
                offset: *offset,
                data: data@,
                last: *last,
            },
            Bulk::FileDone { id } => BulkView::FileDone { id: *id },
            Bulk::FileAbort { id, reason } => BulkView::FileAbort { id: *id, reason: reason@ },
        }
    }
}

/// A copy of a run of bytes.
pub fn copy_of(data: &Vec<u8>) -> (r: Vec<u8>)
    ensures
        r@ == data@,
{
    let r: Vec<u8> = data.clone();
    assert(r@ =~= data@);
    r
}

impl Clone for Bulk {
    fn clone(&self) -> (r: Bulk)
        ensures
            r.deep_view() == self.deep_view(),
    {
        match self {
            Bulk::ClipOffer(o) => Bulk::ClipOffer(o.clone()),
            Bulk::ClipRequest { seq, format, offset } => Bulk::ClipRequest {
                seq: *seq,
                format: format.clone(),
                offset: *offset,
            },
            Bulk::ClipChunk { seq, format, offset, data, last } => Bulk::ClipChunk {
                seq: *seq,
                format: format.clone(),
                offset: *offset,
                data: copy_of(data),
                last: *last,
            },
            Bulk::ClipUnavailable { seq, format, reason } => Bulk::ClipUnavailable {
                seq: *seq,
                format: format.clone(),
                reason: *reason,
            },
            Bulk::ClipCancel { seq, format } => Bulk::ClipCancel {
                seq: *seq,
                format: format.clone(),
            },
            Bulk::FileOffer(o) => Bulk::FileOffer(o.clone()),
            Bulk::FileRequest { id, index, offset } => Bulk::FileRequest {
                id: *id,
                index: *index,
                offset: *offset,
            },
            Bulk::FileChunk { id, index, offset, data, last } => Bulk::FileChunk {
                id: *id,
                index: *index,
                offset: *offset,
                data: copy_of(data),
                last: *last,
            },
            Bulk::FileDone { id } => Bulk::FileDone { id: *id },
            Bulk::FileAbort { id, reason } => Bulk::FileAbort {
                id: *id,
                reason: reason.clone(),
            },
        }
    }
}

} // verus!
