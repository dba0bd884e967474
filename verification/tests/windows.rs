//! What is on the Windows clipboard, and what is promised on it.

use smkvm::clipboard::ClipboardError;
use smkvm::files::hdrop_of;
use smkvm::html;
use smkvm::proto::ClipFormat;
use smkvm::windows::{
    after_reading, asked_about, available_now, begin_reading, native_ids, write_native, Formats,
    Native, Reading, Render, WindowsClipboard, CF_DIB, CF_HDROP, CF_UNICODETEXT,
};

fn formats() -> Formats {
    Formats { html: 0xC001, png: 0xC002 }
}

fn other() -> ClipFormat {
    ClipFormat::Other("x".to_string())
}

#[test]
fn what_is_there_is_described_in_our_own_words() {
    assert_eq!(asked_about(formats()), vec![13, 0xC001, 0xC002, 8, 15]);
    let all = available_now(formats(), &vec![15, 8, 0xC001, 13]);
    assert_eq!(
        all.formats,
        vec![ClipFormat::Text, ClipFormat::Html, ClipFormat::Png, ClipFormat::Uris]
    );
    let both = available_now(formats(), &vec![0xC002, 8]);
    assert_eq!(both.formats, vec![ClipFormat::Png], "a picture is listed once");
    assert!(available_now(formats(), &vec![1, 2]).is_empty());
    assert_eq!(native_ids(formats(), &ClipFormat::Png), vec![0xC002, CF_DIB]);
    assert!(native_ids(formats(), &other()).is_empty());
}

#[test]
fn text_goes_out_wide_and_comes_back() {
    for text in ["hello", "", "\u{d55c}\u{ae00} \u{1F600}"] {
        let wrote =
            write_native(formats(), &ClipFormat::Text, 13, text.as_bytes().to_vec()).unwrap();
        assert_eq!(wrote.id, CF_UNICODETEXT);
        assert!(wrote.bytes.ends_with(&[0, 0]));
        assert_eq!(
            after_reading(&ClipFormat::Text, false, Ok(wrote.bytes)),
            Reading::Done(Ok(text.as_bytes().to_vec()))
        );
    }
    // What follows the null is no part of the text, nor is an odd byte.
    let raw = vec![b'h', 0, b'i', 0, 0, 0, b'x', 0, 9];
    assert_eq!(
        after_reading(&ClipFormat::Text, false, Ok(raw)),
        Reading::Done(Ok(b"hi".to_vec()))
    );
}

#[test]
fn each_format_is_read_from_the_form_windows_keeps_it_in() {
    assert_eq!(begin_reading(formats(), &ClipFormat::Text), Reading::Try(CF_UNICODETEXT));
    assert_eq!(begin_reading(formats(), &ClipFormat::Html), Reading::Try(0xC001));
    assert_eq!(begin_reading(formats(), &ClipFormat::Uris), Reading::Try(CF_HDROP));
    assert_eq!(
        begin_reading(formats(), &other()),
        Reading::Done(Err(ClipboardError::Refused(other())))
    );
    assert_eq!(
        after_reading(&ClipFormat::Html, false, Ok(html::wrap(b"<b>x</b>"))),
        Reading::Done(Ok(b"<b>x</b>".to_vec()))
    );
    let list = hdrop_of(&vec![r"C:\x".to_string()]);
    assert_eq!(
        after_reading(&ClipFormat::Uris, false, Ok(list)),
        Reading::Done(Ok(b"file:///C:/x\r\n".to_vec()))
    );
    assert_eq!(
        after_reading(&ClipFormat::Text, false, Err(ClipboardError::Busy)),
        Reading::Done(Err(ClipboardError::Busy))
    );
}

#[test]
fn a_picture_is_read_in_the_form_that_needs_no_conversion_first() {
    assert_eq!(begin_reading(formats(), &ClipFormat::Png), Reading::Try(0xC002));
    let png = ClipFormat::Png;
    assert_eq!(
        after_reading(&png, false, Ok(b"a PNG".to_vec())),
        Reading::Done(Ok(b"a PNG".to_vec()))
    );
    assert_eq!(after_reading(&png, false, Ok(Vec::new())), Reading::Try(CF_DIB));
    assert_eq!(after_reading(&png, false, Err(ClipboardError::Busy)), Reading::Try(CF_DIB));
    assert!(matches!(
        after_reading(&png, true, Ok(Vec::new())),
        Reading::Done(Err(ClipboardError::Display(_)))
    ));
}

#[test]
fn each_format_is_put_there_in_the_form_that_was_asked_for() {
    let as_png = write_native(formats(), &ClipFormat::Png, 0xC002, b"p".to_vec()).unwrap();
    assert_eq!(as_png, Native { id: 0xC002, bytes: b"p".to_vec() });
    assert!(write_native(formats(), &ClipFormat::Png, CF_DIB, b"p".to_vec()).is_err());
    let page = write_native(formats(), &ClipFormat::Html, 0xC001, b"<i>".to_vec()).unwrap();
    assert_eq!(page, Native { id: 0xC001, bytes: html::wrap(b"<i>") });
    let list = b"file:///C:/x\r\n".to_vec();
    let files = write_native(formats(), &ClipFormat::Uris, CF_HDROP, list).unwrap();
    assert_eq!(files, Native { id: CF_HDROP, bytes: hdrop_of(&vec![r"C:\x".to_string()]) });
    assert_eq!(
        write_native(formats(), &other(), 1, Vec::new()),
        Err(ClipboardError::Refused(other()))
    );
}

#[test]
fn our_own_offer_coming_round_is_no_news() {
    let mut clipboard = WindowsClipboard::new(formats());
    assert!(!clipboard.has_offer() && clipboard.promised().is_empty());
    clipboard.offer(vec![ClipFormat::Text, ClipFormat::Png]);
    assert!(clipboard.has_offer());
    assert_eq!(clipboard.taken(), vec![CF_UNICODETEXT, 0xC002, CF_DIB]);
    assert!(!clipboard.changed(), "announcing it would send it straight back");
    assert!(clipboard.has_offer(), "and the offer stands");
    assert!(clipboard.changed(), "this one is somebody copying");
    assert!(!clipboard.has_offer());
    assert_eq!(clipboard.render(CF_UNICODETEXT), Render::Nothing);
}

#[test]
fn a_promise_is_kept_when_something_pastes_and_fetched_once() {
    let mut clipboard = WindowsClipboard::new(formats());
    clipboard.offer(vec![ClipFormat::Text, ClipFormat::Png]);
    clipboard.taken();
    assert_eq!(clipboard.render(CF_DIB), Render::Fetch(ClipFormat::Png));
    assert_eq!(clipboard.render(CF_HDROP), Render::Nothing, "it was not promised");
    clipboard.supplied(ClipFormat::Png, &b"p".to_vec());
    for id in [CF_DIB, 0xC002] {
        assert_eq!(
            clipboard.render(id),
            Render::Ready { format: ClipFormat::Png, data: b"p".to_vec() }
        );
    }
    clipboard.offer(vec![ClipFormat::Png]);
    assert_eq!(clipboard.render(CF_DIB), Render::Fetch(ClipFormat::Png), "a new offer");
    clipboard.release();
    assert_eq!(clipboard.render(CF_DIB), Render::Nothing);
}
