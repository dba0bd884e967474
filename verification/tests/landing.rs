//! Where files from another machine may land, and what is being copied.

use smkvm::landing::{
    candidate, names_to_place, piece_of, plan_landing, safe_parts, still_to_ask, top_names, unclaimed, Arriving, Unacceptable,
    MAX_ENTRIES,
};
use smkvm::layout::DeviceId;
use smkvm::proto::{FileEntry, FileOffer, TransferId, MAX_CHUNK_DATA};
use smkvm::survey::{
    nameless_message, too_many_message, Child, Copied, Found, Survey, Wanted,
};

fn id() -> TransferId {
    TransferId { device: DeviceId::from_bytes([9; 32]), counter: 1 }
}

fn child(name: &str, place: usize) -> Child {
    Child { raw: name.as_bytes().to_vec(), name: name.to_string(), place }
}

fn copied(name: &str, place: usize) -> Copied {
    Copied { name: Some(name.to_string()), place }
}

/// Walk over what a pretended disk holds.
fn walk(survey: &mut Survey, disk: impl Fn(usize) -> Found) -> Wanted {
    loop {
        match survey.wanted() {
            Wanted::Look(place) => survey.found(disk(place)),
            other => return other,
        }
    }
}

#[test]
fn a_folder_is_described_with_everything_under_it_and_read_back_in_pieces() {
    let big = MAX_CHUNK_DATA as u64 + 3;
    let mut survey = Survey::new(vec![copied("photos", 0), copied("loose.bin", 1)]);
    let ended = walk(&mut survey, |place| match place {
        0 => Found::Folder { children: vec![child("b.txt", 2), child("2024", 3)] },
        1 => Found::File { bytes: big },
        2 => Found::File { bytes: 5 },
        3 => Found::Folder { children: vec![child("a.jpg", 4)] },
        _ => Found::File { bytes: 10 },
    });
    assert_eq!(ended, Wanted::Nothing);
    let offered = survey.finish(id());
    let names: Vec<(&str, u64, bool)> = offered
        .offer
        .files
        .iter()
        .map(|f| (f.path.as_str(), f.bytes, f.is_dir))
        .collect();
    assert_eq!(
        names,
        vec![
            ("photos", 0, true),
            ("photos/2024", 0, true),
            ("photos/2024/a.jpg", 10, false),
            ("photos/b.txt", 5, false),
            ("loose.bin", MAX_CHUNK_DATA as u64 + 3, false),
        ]
    );
    assert_eq!(offered.offer.total_bytes, 15 + MAX_CHUNK_DATA as u64 + 3);
    assert_eq!(offered.places, vec![0, 3, 4, 2, 1]);

    // The big one takes two pieces; the second is the last.
    let first = piece_of(big, 0).unwrap();
    assert_eq!((first.want, first.last), (MAX_CHUNK_DATA, false));
    let second = piece_of(big, MAX_CHUNK_DATA as u64).unwrap();
    assert_eq!((second.want, second.last), (3, true));
    assert!(piece_of(big, MAX_CHUNK_DATA as u64 + 4).is_none());
}

#[test]
fn a_link_is_not_followed() {
    let mut survey = Survey::new(vec![copied("dir", 0)]);
    walk(&mut survey, |place| match place {
        0 => Found::Folder { children: vec![child("real", 1), child("sneaky", 2)] },
        1 => Found::File { bytes: 1 },
        _ => Found::Link,
    });
    let offered = survey.finish(id());
    let names: Vec<&str> = offered.offer.files.iter().map(|f| f.path.as_str()).collect();
    assert!(names.iter().any(|n| n.ends_with("/real")));
    assert!(!names.iter().any(|n| n.ends_with("/sneaky")));
}

#[test]
fn too_much_for_one_copy_is_said() {
    let mut survey = Survey::new(vec![copied("dir", 0)]);
    let ended = walk(&mut survey, |place| match place {
        0 => Found::Folder {
            children: (0..MAX_ENTRIES).map(|n| child(&format!("{n:05}"), 1)).collect(),
        },
        _ => Found::File { bytes: 1 },
    });
    assert_eq!(ended, Wanted::TooMany);
    assert_eq!(too_many_message(), "more than 20000 files in one copy");
    let mut survey = Survey::new(vec![Copied { name: None, place: 7 }]);
    assert_eq!(survey.wanted(), Wanted::Nameless(7));
    assert_eq!(nameless_message("/"), "/ has no name to copy it under");
}

fn offer_of(names: &[(&str, u64, bool)]) -> FileOffer {
    FileOffer {
        id: id(),
        files: names
            .iter()
            .map(|(p, b, d)| FileEntry { path: (*p).to_owned(), bytes: *b, is_dir: *d })
            .collect(),
        total_bytes: names.iter().map(|(_, b, _)| *b).sum(),
    }
}

fn strings(names: &[&str]) -> Vec<String> {
    names.iter().map(|s| s.to_string()).collect()
}

#[test]
fn names_that_would_escape_are_refused_before_anything_is_written() {
    for bad in [
        "../etc/passwd",
        "a/../../b",
        "/etc/passwd",
        "C:/Windows/x",
        "a\\b",
        "nul\0byte",
        "trailing.",
        "what?",
        "",
    ] {
        let offer = offer_of(&[(bad, 1, false)]);
        let result = plan_landing(&offer, &Vec::new(), 1 << 30);
        assert!(
            matches!(
                result,
                Err(Unacceptable::BadPath(_)) | Err(Unacceptable::Empty)
            ),
            "{bad:?} was accepted: {result:?}"
        );
    }
    // Harmless oddities are tidied rather than refused.
    let offer = offer_of(&[("./a//b.txt", 1, false)]);
    let landing = plan_landing(&offer, &Vec::new(), 1 << 30).unwrap();
    assert_eq!(landing.paths, vec![strings(&["a", "b.txt"])]);
    assert_eq!(landing.top_level, strings(&["a"]));
}

#[test]
fn what_is_already_there_is_not_overwritten() {
    let present = strings(&["report.pdf", "report (2).pdf", "photos"]);
    let offer = offer_of(&[
        ("report.pdf", 3, false),
        ("photos", 0, true),
        ("photos/a.jpg", 1, false),
    ]);
    let landing = plan_landing(&offer, &present, 1 << 30).unwrap();
    assert_eq!(
        landing.paths,
        vec![
            strings(&["report (3).pdf"]),
            strings(&["photos (2)"]),
            strings(&["photos (2)", "a.jpg"]),
        ]
    );
    assert_eq!(landing.top_level, strings(&["report (3).pdf", "photos (2)"]));
    assert_eq!(top_names(&offer.files), strings(&["report.pdf", "photos"]));
}

#[test]
fn too_much_is_refused_with_the_limit_named() {
    let offer = offer_of(&[("big.iso", 10, false)]);
    let refused = plan_landing(&offer, &Vec::new(), 9);
    assert!(matches!(
        refused,
        Err(Unacceptable::TooLarge { bytes: 10, limit: 9 })
    ));
    assert_eq!(
        refused.unwrap_err().message(),
        "it is 10 bytes and the limit is 9; raise transfer.max_bytes"
    );
}

#[test]
fn what_is_wrong_with_a_manifest_is_said() {
    assert_eq!(
        plan_landing(&offer_of(&[]), &Vec::new(), 9).unwrap_err().message(),
        "it names no files"
    );
    let many: Vec<(&str, u64, bool)> = vec![("x", 0, false); MAX_ENTRIES + 1];
    assert_eq!(
        plan_landing(&offer_of(&many), &Vec::new(), 9).unwrap_err().message(),
        "it names 20001 files, more than can be taken"
    );
    assert_eq!(
        plan_landing(&offer_of(&[("a\\b", 1, false)]), &Vec::new(), 9).unwrap_err().message(),
        "\"a\\\\b\" is not a name a file may arrive under"
    );
}

#[test]
fn a_taken_name_is_numbered_before_its_ending() {
    assert_eq!(candidate("report.pdf", 1), "report.pdf");
    assert_eq!(candidate("report.pdf", 2), "report (2).pdf");
    assert_eq!(candidate("photos", 3), "photos (3)");
    assert_eq!(candidate(".profile", 2), ".profile (2)");
    assert_eq!(unclaimed(&"a".to_string(), &strings(&["a", "a (2)"])), "a (3)");
    assert_eq!(safe_parts("a/./b"), Some(strings(&["a", "b"])));
    assert_eq!(safe_parts("a/.."), None);
}

#[test]
fn pieces_are_written_in_order_and_only_in_order() {
    let mut arriving = Arriving::create();
    assert!(arriving.append(0, 3));
    assert!(!arriving.append(2, 1), "a repeat is refused");
    assert!(!arriving.append(4, 1), "a gap is refused");
    assert!(arriving.admits(3) && !arriving.admits(2));
    assert!(arriving.append(3, 2));
    assert_eq!(arriving.written(), 5);
}

#[test]
fn the_disk_is_asked_until_a_place_is_found() {
    let name = "Report.pdf".to_string();
    // A disk that does not tell large letters from small.
    let on_disk = |asked: &str| ["report.pdf", "report (2).pdf"].contains(&&*asked.to_lowercase());
    let mut present = Vec::new();
    let mut free = Vec::new();
    let mut asked = Vec::new();
    while let Some(next) = still_to_ask(&name, &present, &free) {
        asked.push(next.clone());
        if on_disk(&next) {
            present.push(next);
        } else {
            free.push(next);
        }
    }
    assert_eq!(asked, strings(&["Report.pdf", "Report (2).pdf", "Report (3).pdf"]));
    assert_eq!(free, strings(&["Report (3).pdf"]));
    let offer = offer_of(&[("Report.pdf", 3, false)]);
    let landing = plan_landing(&offer, &present, 1 << 30).unwrap();
    assert_eq!(landing.top_level, free);
}

#[test]
fn places_are_found_only_for_what_will_be_taken() {
    let offer = offer_of(&[("a", 0, true), ("a/b", 4, false), ("c", 4, false)]);
    assert_eq!(names_to_place(&offer, 8), strings(&["a", "c"]));
    assert!(names_to_place(&offer, 7).is_empty());
    assert!(names_to_place(&offer_of(&[("../x", 1, false)]), 8).is_empty());
}

#[test]
fn a_folder_is_ordered_by_what_the_disk_calls_things() {
    // A name that is not text is shown with something else in it, which would
    // come before what it really comes after.
    let broken = Child { raw: b"\xff".to_vec(), name: "\u{fffd}".to_string(), place: 1 };
    let mut survey = Survey::new(vec![copied("d", 0)]);
    let ended = walk(&mut survey, |place| match place {
        0 => Found::Folder {
            children: vec![
                Child { raw: broken.raw.clone(), name: broken.name.clone(), place: 1 },
                child("\u{1f600}", 2),
                child("a", 3),
            ],
        },
        _ => Found::File { bytes: 1 },
    });
    assert_eq!(ended, Wanted::Nothing);
    let offered = survey.finish(id());
    assert_eq!(offered.places, vec![0, 3, 2, 1]);
    assert_eq!(offered.clone(), offered);
}
