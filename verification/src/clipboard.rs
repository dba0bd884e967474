//! What is on the clipboard, and why it sometimes cannot be had.
//!
//! Two ideas shape the sharing of it. The first is that copying, not switching
//! screens, is what makes a clipboard travel: every change is noticed as it
//! happens. The second is that a copy announces what is available rather than
//! sending it. A description is cheap and fixed in size; the contents might be
//! a screenshot. They are fetched when they are wanted, and until then cost
//! nothing.

use vstd::prelude::*;

use crate::proto::{ClipFormat, FormatView};
use crate::table::listed;
use crate::text::{add_text, chars_of, text_of};

verus! {

#[derive(Debug, PartialEq, Eq)]
pub enum ClipboardError {
    /// The clipboard is held by something else.
    Busy,
    /// The owning application would not hand this over.
    Refused(ClipFormat),
    NothingUsable,
    Display(String),
    Unsupported(String),
}

#[verifier::ext_equal]
pub enum ClipboardErrorView {
    Busy,
    Refused(FormatView),
    NothingUsable,
    Display(Seq<char>),
    Unsupported(Seq<char>),
}

impl DeepView for ClipboardError {
    type V = ClipboardErrorView;

    open spec fn deep_view(&self) -> ClipboardErrorView {
        match self {
            ClipboardError::Busy => ClipboardErrorView::Busy,
            ClipboardError::Refused(format) => ClipboardErrorView::Refused(format.deep_view()),
            ClipboardError::NothingUsable => ClipboardErrorView::NothingUsable,
            ClipboardError::Display(why) => ClipboardErrorView::Display(why@),
            ClipboardError::Unsupported(what) => ClipboardErrorView::Unsupported(what@),
        }
    }
}

/// A text in double quotes, with what cannot be shown escaped.
pub uninterp spec fn shown_quoted(text: Seq<char>) -> Seq<char>;

/// The `Debug` form of a text, as [`format!`] writes it with `{:?}`. It
/// depends on the text alone; which characters it escapes, and how, is left
/// to the name.
#[verifier::external_body]
pub(crate) fn quoted(text: &str) -> (r: String)
    ensures
        r@ == shown_quoted(text@),
{
    format!("{text:?}")
}

/// The name of a format, for a message.
pub open spec fn format_name(format: FormatView) -> Seq<char> {
    match format {
        FormatView::Text => "Text"@,
        FormatView::Html => "Html"@,
        FormatView::Png => "Png"@,
        FormatView::Uris => "Uris"@,
        FormatView::Other(name) => "Other("@ + shown_quoted(name) + ")"@,
    }
}

fn name_of(format: &ClipFormat) -> (r: Vec<char>)
    ensures
        r@ == format_name(format.deep_view()),
{
    match format {
        ClipFormat::Text => chars_of("Text"),
        ClipFormat::Html => chars_of("Html"),
        ClipFormat::Png => chars_of("Png"),
        ClipFormat::Uris => chars_of("Uris"),
        ClipFormat::Other(name) => {
            let mut r: Vec<char> = chars_of("Other(");
            let shown: String = quoted(name.as_str());
            add_text(&mut r, shown.as_str());
            add_text(&mut r, ")");
            r
        },
    }
}

/// What an error says to a person.
pub open spec fn error_message(e: ClipboardErrorView) -> Seq<char> {
    match e {
        ClipboardErrorView::Busy => "the clipboard is held by something else"@,
        ClipboardErrorView::Refused(format) => "the owning application would not hand over "@
            + format_name(format),
        ClipboardErrorView::NothingUsable =>
            "nothing on the clipboard is in a form this can carry"@,
        ClipboardErrorView::Display(why) => "display server: "@ + why,
        ClipboardErrorView::Unsupported(what) => what + " is not available on this platform"@,
    }
}

impl ClipboardError {
    /// What this says to a person.
    pub fn message(&self) -> (r: String)
        ensures
            r@ == error_message(self.deep_view()),
    {
        match self {
            ClipboardError::Busy => "the clipboard is held by something else".to_owned(),
            ClipboardError::Refused(format) => {
                let mut r: Vec<char> = chars_of("the owning application would not hand over ");
                let mut name: Vec<char> = name_of(format);
                r.append(&mut name);
                text_of(&r)
            },
            ClipboardError::NothingUsable => {
                "nothing on the clipboard is in a form this can carry".to_owned()
            },
            ClipboardError::Display(why) => {
                let mut r: Vec<char> = chars_of("display server: ");
                add_text(&mut r, why.as_str());
                text_of(&r)
            },
            ClipboardError::Unsupported(what) => {
                let mut r: Vec<char> = chars_of(what.as_str());
                add_text(&mut r, " is not available on this platform");
                text_of(&r)
            },
        }
    }
}

/// An error made of a beginning and a reason.
pub fn unusable(what: &str, why: &str) -> (r: ClipboardError)
    ensures
        r.deep_view() == ClipboardErrorView::Display(what@ + why@),
{
    let mut text: Vec<char> = chars_of(what);
    add_text(&mut text, why);
    ClipboardError::Display(text_of(&text))
}

/// What is on the clipboard right now, described rather than fetched.
///
/// Building one must stay cheap: it happens on every copy, and reading the
/// contents of a large image just to describe it would make copying slow.
#[derive(Debug, Clone, PartialEq, Eq)]
pub struct Available {
    pub formats: Vec<ClipFormat>,
}

impl Default for Available {
    fn default() -> (r: Available)
        ensures
            r.formats.deep_view() == Seq::<FormatView>::empty(),
    {
        let r: Available = Available { formats: Vec::new() };
        assert(r.formats.deep_view() =~= Seq::<FormatView>::empty());
        r
    }
}

impl Available {
    pub fn is_empty(&self) -> (r: bool)
        ensures
            r == (self.formats.deep_view().len() == 0),
    {
        self.formats.is_empty()
    }

    pub fn has(&self, format: &ClipFormat) -> (r: bool)
        ensures
            r == self.formats.deep_view().contains(format.deep_view()),
    {
        listed(&self.formats, format)
    }
}

} // verus!
