//! Translating between Windows' file list and `text/uri-list`.

use smkvm::clipboard::ClipboardError;
use smkvm::files::{
    hdrop_of, hdrop_to_uri_list, local_paths, path_of, to_uri, uri_list, uri_list_to_hdrop,
};

/// Build the Windows form by hand, the way an application would.
fn hdrop(paths: &[&str], wide: bool) -> Vec<u8> {
    let mut out = vec![0u8; 20];
    out[0..4].copy_from_slice(&20u32.to_le_bytes());
    out[16..20].copy_from_slice(&u32::from(wide).to_le_bytes());
    for path in paths {
        if wide {
            for unit in path.encode_utf16() {
                out.extend_from_slice(&unit.to_le_bytes());
            }
            out.extend_from_slice(&0u16.to_le_bytes());
        } else {
            out.extend_from_slice(path.as_bytes());
            out.push(0);
        }
    }
    if wide {
        out.extend_from_slice(&0u16.to_le_bytes());
    } else {
        out.push(0);
    }
    out
}

fn lines(bytes: &[u8]) -> Vec<String> {
    String::from_utf8_lossy(bytes)
        .lines()
        .map(str::to_string)
        .collect()
}

#[test]
fn copied_files_become_uris() {
    let got = hdrop_to_uri_list(&hdrop(
        &[r"C:\Users\USER\notes.txt", r"D:\pictures\a b.png"],
        true,
    ))
    .expect("translates");
    assert_eq!(
        lines(&got),
        vec![
            "file:///C:/Users/USER/notes.txt",
            // A space cannot appear in a URI as itself.
            "file:///D:/pictures/a%20b.png",
        ]
    );
}

#[test]
fn the_narrow_form_is_read_too() {
    // Older applications write bytes rather than wide characters.
    let got = hdrop_to_uri_list(&hdrop(&[r"C:\temp\x.txt"], false)).expect("translates");
    assert_eq!(lines(&got), vec!["file:///C:/temp/x.txt"]);
}

#[test]
fn uris_become_a_list_windows_will_take() {
    let list = b"file:///C:/Users/USER/notes.txt\r\nfile:///D:/pictures/a%20b.png\r\n";
    let built = uri_list_to_hdrop(list).expect("translates");
    // And it reads back as what went in.
    assert_eq!(
        lines(&hdrop_to_uri_list(&built).expect("reads back")),
        vec![
            "file:///C:/Users/USER/notes.txt",
            "file:///D:/pictures/a%20b.png"
        ]
    );
}

#[test]
fn a_path_outside_ascii_survives_the_trip() {
    let path = r"C:\Users\USER\한글 문서.txt";
    let uris = hdrop_to_uri_list(&hdrop(&[path], true)).expect("translates");
    let back = uri_list_to_hdrop(&uris).expect("and back");
    let again = hdrop_to_uri_list(&back).expect("and once more");
    assert_eq!(lines(&uris), lines(&again));
    // Wide characters are used precisely so this is possible.
    assert_eq!(
        u32::from_le_bytes([back[16], back[17], back[18], back[19]]),
        1
    );
}

#[test]
fn comments_and_blank_lines_are_not_files() {
    let list = b"# a comment\r\n\r\nfile:///C:/a.txt\r\n";
    let built = uri_list_to_hdrop(list).expect("translates");
    assert_eq!(lines(&hdrop_to_uri_list(&built).unwrap()).len(), 1);
}

#[test]
fn a_uri_naming_another_machine_is_not_treated_as_a_local_path() {
    // `file://server/share` is somewhere else. Guessing a local path from it
    // would produce a path to nothing.
    assert!(uri_list_to_hdrop(b"file://server/share/x.txt\r\n").is_err());
}

#[test]
fn a_list_naming_nothing_is_an_error_rather_than_an_empty_drop() {
    assert!(uri_list_to_hdrop(b"").is_err());
    assert!(uri_list_to_hdrop(b"# only a comment\r\n").is_err());
}

#[test]
fn files_nonsense_never_panics() {
    // Both forms arrive from another application, so neither is this
    // program's to trust.
    for len in [0usize, 1, 19, 20, 21, 64] {
        for fill in [0x00u8, 0xFF, 0x41] {
            let _ = hdrop_to_uri_list(&vec![fill; len]);
            let _ = uri_list_to_hdrop(&vec![fill; len]);
        }
    }
    // A header whose paths begin past the end of it.
    let mut broken = vec![0u8; 20];
    broken[0..4].copy_from_slice(&9999u32.to_le_bytes());
    assert!(hdrop_to_uri_list(&broken).is_err());
}

#[test]
fn a_path_is_written_as_a_uri_byte_by_byte() {
    assert_eq!(to_uri(r"C:\dir\file name.txt"), b"file:///C:/dir/file%20name.txt");
    assert_eq!(to_uri("/home/me/100%.txt"), b"file:///home/me/100%25.txt");
    assert_eq!(to_uri("/\u{e9}"), b"file:///%C3%A9");
    assert_eq!(path_of("C:/dir/x", true).as_deref(), Some(r"C:\dir\x"));
    assert_eq!(path_of("home/me", false).as_deref(), Some("/home/me"));
    assert_eq!(path_of("", true), None);
}

#[test]
fn a_list_of_uris_names_its_paths() {
    let paths = vec!["/home/me/a b".to_string(), "/srv/\u{d55c}\u{ae00}".to_string()];
    let list = uri_list(&paths);
    assert_eq!(list, b"file:///home/me/a%20b\r\nfile:///srv/%ED%95%9C%EA%B8%80\r\n");
    assert_eq!(local_paths(&list, false), paths);
    let drive = b"file:///C:/a%20b\r\nC:\\x\r\n";
    assert_eq!(local_paths(drive, true), vec![r"C:\a b", r"C:\x"]);
}

#[test]
fn a_drop_list_is_a_header_and_wide_paths() {
    let built = hdrop_of(&vec!["A".to_string()]);
    let mut expected = vec![20, 0, 0, 0, 0, 0, 0, 0, 0, 0, 0, 0, 0, 0, 0, 0, 1, 0, 0, 0];
    expected.extend_from_slice(&[0x41, 0, 0, 0, 0, 0]);
    assert_eq!(built, expected);
}

#[test]
fn files_keep_their_names_from_one_form_to_the_other() {
    let paths = vec![r"C:\a\b.txt".to_string(), r"D:\\u{1F600}".to_string()];
    let uris = hdrop_to_uri_list(&hdrop_of(&paths)).unwrap();
    let back = uri_list_to_hdrop(&uris).unwrap();
    assert_eq!(hdrop_to_uri_list(&back).unwrap(), uris);
}

#[test]
fn broken_text_is_read_with_something_in_its_place() {
    // Not UTF-8, and then half of a pair of units.
    let mut narrow = vec![0u8; 20];
    narrow[0] = 20;
    narrow.extend_from_slice(&[b'C', b':', b'\\', 0xFF, 0, 0]);
    assert_eq!(hdrop_to_uri_list(&narrow).unwrap(), b"file:///C:/%EF%BF%BD\r\n");
    let mut wide = vec![0u8; 20];
    wide[0] = 20;
    wide[16] = 1;
    wide.extend_from_slice(&[b'x', 0, 0x00, 0xD8, 0, 0, 0, 0]);
    assert_eq!(hdrop_to_uri_list(&wide).unwrap(), b"file:///x%EF%BF%BD\r\n");
}

#[test]
fn what_is_wrong_with_a_list_is_said() {
    let said = |e: ClipboardError| e.message();
    assert_eq!(
        said(hdrop_to_uri_list(&[0u8; 4]).unwrap_err()),
        "display server: the file list on the clipboard is unusable: it is shorter than a header"
    );
    assert_eq!(
        said(hdrop_to_uri_list(&[0u8; 20]).unwrap_err()),
        "display server: the file list on the clipboard is unusable: the paths begin outside it"
    );
    assert_eq!(
        said(uri_list_to_hdrop(b"").unwrap_err()),
        "display server: the file list on the clipboard is unusable: it names no files"
    );
}

#[test]
fn any_list_comes_back_as_it_was_offered() {
    let trip = |list: &[u8]| {
        let first = hdrop_to_uri_list(list).expect("translates");
        let back = uri_list_to_hdrop(&first).expect("and back");
        let again = hdrop_to_uri_list(&back).expect("and once more");
        assert_eq!(first, again);
        lines(&first)
    };
    // A path on another machine of the network.
    assert_eq!(
        trip(&hdrop(&[r"\\server\share\x.txt", "mixed/and\\matched"], true)),
        vec!["file:///server/share/x.txt", "file:///mixed/and/matched"]
    );
    // Names that are not text: half of a pair, and bytes that are not UTF-8.
    let mut broken = hdrop(&["xy"], true);
    broken[20..22].copy_from_slice(&0xD800u16.to_le_bytes());
    assert_eq!(trip(&broken), vec!["file:///%EF%BF%BDy"]);
    let mut narrow = hdrop(&["xy"], false);
    narrow[20] = 0xFF;
    assert_eq!(trip(&narrow), vec!["file:///%EF%BF%BDy"]);
    // Nothing but slashes names no file, so there is nothing to bring back.
    let nowhere = hdrop_to_uri_list(&hdrop(&[r"\\", "/"], true)).expect("translates");
    assert_eq!(lines(&nowhere), vec!["file:///", "file:///"]);
    assert!(uri_list_to_hdrop(&nowhere).is_err());
}
