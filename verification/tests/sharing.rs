//! The clipboard and files of two machines, joined by a pretended link and
//! written to a pretended disk.

use std::collections::VecDeque;

use smkvm::clipboard::ClipboardError;
use smkvm::control::Role;
use smkvm::landing::piece_of;
use smkvm::layout::DeviceId;
use smkvm::proto::{Bulk, ClipError, ClipFormat, ClipSeq, FileEntry, FileOffer};
use smkvm::sharing::{
    describe, files_answered, from_backend, paste_answered, piece_message, Effect, Pasted,
    Sharing, FETCH_PATIENCE, FILES_PATIENCE,
};
use smkvm::survey::Offered;

const SECOND: u64 = 1_000_000_000;
const LIMIT: u64 = 1 << 30;

fn dev(n: u8) -> DeviceId {
    DeviceId::from_bytes([n; 32])
}

fn start(n: u8, role: Role) -> Sharing {
    let all = vec![ClipFormat::Text, ClipFormat::Html, ClipFormat::Png, ClipFormat::Uris];
    Sharing::start(dev(n), role, all, LIMIT, true, true, LIMIT, true)
}

/// What a machine did that was neither a message nor the disk's.
#[derive(Default)]
struct Seen {
    offered: Vec<ClipSeq>,
    released: usize,
    answers: Vec<(u64, Result<Vec<u8>, ClipError>)>,
    refused: Vec<(u64, String)>,
    landed: Vec<(Option<u64>, Vec<String>)>,
    disk: Vec<String>,
}

/// A server and a client, every message delivered in order.
struct Desk {
    machines: [Sharing; 2],
    seen: [Seen; 2],
    files: Vec<Vec<u8>>,
    offer: Option<FileOffer>,
    fail_writes: bool,
    now: u64,
}

fn index_of(device: DeviceId) -> usize {
    if device == dev(1) {
        0
    } else {
        1
    }
}

impl Desk {
    fn new() -> Desk {
        let mut desk = Desk {
            machines: [start(1, Role::Server), start(2, Role::Client)],
            seen: [Seen::default(), Seen::default()],
            files: vec![b"hello".to_vec(), Vec::new()],
            offer: None,
            fail_writes: false,
            now: 100 * SECOND,
        };
        let up = desk.machines[0].peer_up(dev(2), desk.now);
        desk.carry_out(0, up);
        let up = desk.machines[1].peer_up(dev(1), desk.now);
        desk.carry_out(1, up);
        desk
    }

    fn name(i: usize) -> DeviceId {
        dev(i as u8 + 1)
    }

    fn manifest(&mut self, who: usize) -> (Offered, Vec<u8>) {
        let id = self.machines[who].claim_id();
        let entry = |path: &str, bytes: u64, is_dir: bool| FileEntry {
            path: path.to_string(),
            bytes,
            is_dir,
        };
        let files = || {
            vec![
                entry("photos", 0, true),
                entry("photos/a.jpg", 5, false),
                entry("empty", 0, false),
            ]
        };
        let offer = FileOffer { id, files: files(), total_bytes: 5 };
        self.offer = Some(FileOffer { id, files: files(), total_bytes: 5 });
        (Offered { offer, places: vec![9, 0, 1] }, b"the manifest".to_vec())
    }

    fn carry_out(&mut self, who: usize, effects: Vec<Effect>) {
        let mut left: VecDeque<(usize, Effect)> =
            effects.into_iter().map(|e| (who, e)).collect();
        while let Some((who, effect)) = left.pop_front() {
            let now = self.now;
            let mut first = Vec::new();
            let mut disk = |desk: &mut Desk, what: String| {
                if desk.fail_writes && what.starts_with("write") {
                    desk.machines[who].disk_failed("a.jpg", "no space left")
                } else {
                    desk.seen[who].disk.push(what);
                    desk.machines[who].disk_done()
                }
            };
            match effect {
                Effect::Send { to, msg } => {
                    let there = index_of(to);
                    let said = self.machines[there].peer_said(Desk::name(who), msg, now);
                    left.extend(said.into_iter().map(|e| (there, e)));
                }
                Effect::Offer { seq, .. } => self.seen[who].offered.push(seq),
                Effect::Release => self.seen[who].released += 1,
                Effect::Read { seq, format } => {
                    let contents = match format {
                        ClipFormat::Uris => b"file:///photos\r\n".to_vec(),
                        _ => b"text".to_vec(),
                    };
                    first = self.machines[who].read_done(seq, format, Ok(contents), false, now);
                }
                Effect::Queue { seq, format, result } => {
                    first = self.machines[who].read_done(seq, format, result, false, now);
                }
                Effect::Describe { seq, paths } => {
                    assert_eq!(paths, vec!["/photos"]);
                    let made = self.manifest(who);
                    first = self.machines[who].described(seq, Some(made), now);
                }
                Effect::Unpack { bytes } => {
                    assert_eq!(bytes, b"the manifest");
                    let offer = self.offer.take().expect("a manifest");
                    first = self.machines[who].begin_pull(offer, None, &Vec::new());
                }
                Effect::Answer { ticket, result } => self.seen[who].answers.push((ticket, result)),
                Effect::ReadPiece { to, id, index, offset, place } => {
                    let file = &self.files[place];
                    let piece = piece_of(file.len() as u64, offset).expect("a piece");
                    let from = offset as usize;
                    let data = file[from..from + piece.want].to_vec();
                    let msg = piece_message(id, index, offset, Some((data, piece.last)));
                    first = vec![Effect::Send { to, msg }];
                }
                Effect::MakeFolder { path } => {
                    first = disk(self, format!("folder {}", path.join("/")));
                }
                Effect::MakeFile { path } => {
                    first = disk(self, format!("file {}", path.join("/")));
                }
                Effect::Write { data } => first = disk(self, format!("write {}", data.len())),
                Effect::Finish { path } => {
                    first = disk(self, format!("finish {}", path.join("/")));
                }
                Effect::Remove { path } => {
                    self.seen[who].disk.push(format!("remove {}", path.join("/")));
                }
                Effect::Refuse { paste, why } => self.seen[who].refused.push((paste, why)),
                Effect::Landed { paste, top_level } => {
                    self.seen[who].landed.push((paste, top_level));
                }
            }
            for effect in first.into_iter().rev() {
                left.push_front((who, effect));
            }
        }
    }

    fn copy(&mut self, who: usize, format: ClipFormat) {
        self.now += 2 * SECOND;
        let effects = self.machines[who].changed(vec![format], self.now);
        self.carry_out(who, effects);
    }

    fn paste(&mut self, who: usize, format: ClipFormat) -> Result<Vec<u8>, ClipError> {
        let seq = *self.seen[who].offered.last().expect("something is offered");
        let (ticket, effects) = self.machines[who].wanted(seq, format, self.now);
        self.carry_out(who, effects);
        let at = self.seen[who].answers.iter().position(|(t, _)| *t == ticket).expect("answered");
        self.seen[who].answers.remove(at).1
    }
}

#[test]
fn text_copied_on_one_machine_is_pasted_on_the_other() {
    let mut desk = Desk::new();
    desk.copy(1, ClipFormat::Text);
    assert_eq!(desk.paste(0, ClipFormat::Text), Ok(b"text".to_vec()));
    desk.copy(0, ClipFormat::Html);
    assert_eq!(desk.paste(1, ClipFormat::Html), Ok(b"text".to_vec()));
}

#[test]
fn files_arrive_whole_before_the_paste_is_answered() {
    let mut desk = Desk::new();
    desk.copy(1, ClipFormat::Uris);
    let manifest = desk.paste(0, ClipFormat::Uris);
    let pasted = paste_answered(&ClipFormat::Uris, Some(manifest));
    assert_eq!(pasted, Pasted::Manifest(b"the manifest".to_vec()));
    let offer = desk.offer.take().expect("a manifest");
    let effects = desk.machines[0].begin_pull(offer, Some(7), &vec!["photos".to_string()]);
    desk.carry_out(0, effects);
    assert_eq!(
        desk.seen[0].disk,
        vec![
            "folder photos (2)",
            "file photos (2)/a.jpg",
            "write 5",
            "finish photos (2)/a.jpg",
            "file empty",
            "finish empty",
        ]
    );
    assert_eq!(
        desk.seen[0].landed,
        vec![(Some(7), vec!["photos (2)".to_string(), "empty".to_string()])]
    );
    assert!(desk.seen[0].refused.is_empty());
}

#[test]
fn a_disk_that_is_full_is_said_and_nothing_half_written_is_left() {
    let mut desk = Desk::new();
    desk.copy(1, ClipFormat::Uris);
    desk.paste(0, ClipFormat::Uris).unwrap();
    desk.fail_writes = true;
    let offer = desk.offer.take().expect("a manifest");
    let effects = desk.machines[0].begin_pull(offer, Some(7), &Vec::new());
    desk.carry_out(0, effects);
    assert_eq!(desk.seen[0].disk.last().unwrap(), "remove photos/a.jpg");
    assert_eq!(desk.seen[0].refused.len(), 1);
    assert!(desk.seen[0].refused[0].1.contains("no space left"), "{:?}", desk.seen[0].refused);
    assert!(desk.seen[0].landed.is_empty());
}

#[test]
fn a_machine_that_goes_away_fails_the_paste_of_its_files() {
    let mut desk = Desk::new();
    desk.copy(1, ClipFormat::Uris);
    desk.paste(0, ClipFormat::Uris).unwrap();
    let offer = desk.offer.take().expect("a manifest");
    // The folder is made and the first file begun; then the machine is gone.
    assert!(matches!(
        desk.machines[0].begin_pull(offer, Some(7), &Vec::new())[..],
        [Effect::MakeFolder { .. }]
    ));
    assert!(matches!(desk.machines[0].disk_done()[..], [Effect::MakeFile { .. }]));
    assert!(matches!(desk.machines[0].disk_done()[..], [Effect::Send { .. }]));
    let gone = desk.machines[0].peer_gone(dev(2), desk.now);
    assert!(gone.iter().any(|e| matches!(e, Effect::Remove { .. })), "{gone:?}");
    assert!(gone.iter().any(|e| matches!(e, Effect::Refuse { paste: 7, .. })), "{gone:?}");
}

#[test]
fn a_second_set_of_files_waits_for_nobody_and_is_refused() {
    let mut desk = Desk::new();
    desk.copy(1, ClipFormat::Uris);
    desk.paste(0, ClipFormat::Uris).unwrap();
    let (offered, _) = desk.manifest(1);
    let first = desk.offer.take().expect("a manifest");
    desk.machines[0].begin_pull(first, Some(7), &Vec::new());
    let second = desk.machines[0].begin_pull(offered.offer, Some(8), &Vec::new());
    assert!(matches!(second[..], [Effect::Refuse { paste: 8, .. }]), "{second:?}");
}

#[test]
fn dragged_files_are_announced_like_a_copy_and_dropped_where_the_cursor_is() {
    let mut desk = Desk::new();
    desk.now += 2 * SECOND;
    let (offered, bytes) = desk.manifest(1);
    let (seq, effects) = desk.machines[1].drag_started(offered, bytes, desk.now);
    desk.carry_out(1, effects);
    let seq = seq.expect("the drag is announced");
    assert_eq!(desk.seen[0].offered.last(), Some(&seq));
    let effects = desk.machines[0].drop_here(seq, desk.now);
    desk.carry_out(0, effects);
    assert_eq!(
        desk.seen[0].landed,
        vec![(None, vec!["photos".to_string(), "empty".to_string()])]
    );
}

#[test]
fn files_stay_where_they_are_when_they_are_switched_off() {
    let mut desk = Desk::new();
    for machine in &mut desk.machines {
        assert!(machine.files_enabled() && machine.has_room());
        machine.reconfigure(vec![ClipFormat::Text, ClipFormat::Uris], LIMIT, true, false, LIMIT);
        assert!(!machine.files_enabled());
    }
    desk.copy(1, ClipFormat::Uris);
    let (offered, bytes) = desk.manifest(1);
    assert_eq!(desk.machines[1].drag_started(offered, bytes, desk.now), (None, vec![]));
    assert!(desk.seen[0].offered.is_empty());
}

#[test]
fn what_went_wrong_is_said_in_words() {
    assert_eq!(describe(&ClipError::Cancelled), "the machine holding it went away");
    assert_eq!(
        describe(&ClipError::TooLarge { bytes: 5, limit: 3 }),
        "it is 5 bytes and the limit is 3; raise clipboard.max_bytes"
    );
    assert_eq!(from_backend(&ClipboardError::NothingUsable), ClipError::Stale);
    assert_eq!(from_backend(&ClipboardError::Busy), ClipError::OwnerRefused);
    assert_eq!(
        paste_answered(&ClipFormat::Text, None),
        Pasted::Failed(ClipboardError::Display(
            "the other machine did not hand the clipboard over in time".to_string()
        ))
    );
    assert_eq!(
        paste_answered(&ClipFormat::Text, Some(Err(ClipError::Cancelled))),
        Pasted::Failed(ClipboardError::Display("the machine holding it went away".to_string()))
    );
    assert_eq!(
        paste_answered(&ClipFormat::Text, Some(Ok(vec![1]))),
        Pasted::Contents(vec![1])
    );
    assert_eq!(files_answered(Some(Ok(vec![1]))), Ok(vec![1]));
    assert_eq!(
        files_answered(None),
        Err(ClipboardError::Display("the files did not all arrive in time".to_string()))
    );
    assert_eq!((FETCH_PATIENCE, FILES_PATIENCE), (30, 600));
    let id = smkvm::proto::TransferId { device: dev(1), counter: 1 };
    assert!(matches!(piece_message(id, 0, 0, None), Bulk::FileAbort { .. }));
}

#[test]
fn a_list_that_names_nothing_here_is_not_handed_over() {
    let mut desk = Desk::new();
    desk.copy(1, ClipFormat::Uris);
    let seq = *desk.seen[0].offered.last().expect("something is offered");
    let machine = &mut desk.machines[1];
    let asked = Bulk::ClipRequest { seq, format: ClipFormat::Uris, offset: 0 };
    let read = machine.peer_said(dev(1), asked, desk.now);
    assert!(matches!(read[..], [Effect::Read { .. }]), "{read:?}");
    let list = b"# nothing\r\nhttp://elsewhere/\r\n".to_vec();
    let done = machine.read_done(seq, ClipFormat::Uris, Ok(list), false, desk.now);
    let refused = Bulk::ClipUnavailable {
        seq,
        format: ClipFormat::Uris,
        reason: ClipError::OwnerRefused,
    };
    assert_eq!(done, vec![Effect::Send { to: dev(1), msg: refused }]);
}

#[test]
fn a_pull_that_the_source_aborts_is_said_to_have_failed() {
    let mut desk = Desk::new();
    desk.copy(1, ClipFormat::Uris);
    desk.paste(0, ClipFormat::Uris).unwrap();
    let offer = desk.offer.take().expect("a manifest");
    let id = offer.id;
    assert_eq!(desk.machines[0].names_to_place(&offer), vec!["photos", "empty"]);
    desk.machines[0].begin_pull(offer, Some(7), &Vec::new());
    desk.machines[0].disk_done();
    desk.machines[0].disk_done();
    let abort = || Bulk::FileAbort { id, reason: "gone".to_string() };
    // Another machine's word is not the source's.
    assert!(desk.machines[0].peer_said(dev(3), abort(), desk.now).is_empty());
    let over = desk.machines[0].peer_said(dev(2), abort(), desk.now);
    assert!(over.iter().any(|e| matches!(e, Effect::Remove { .. })), "{over:?}");
    assert!(over.iter().any(|e| matches!(e, Effect::Refuse { paste: 7, .. })), "{over:?}");
    // A file with nothing in it that could not be closed is named.
    let (offered, _) = desk.manifest(1);
    let mut only = offered.offer;
    only.files.remove(0);
    only.files.remove(0);
    only.total_bytes = 0;
    desk.machines[0].begin_pull(only, Some(8), &Vec::new());
    let finish = desk.machines[0].disk_done();
    assert_eq!(finish, vec![Effect::Finish { path: vec!["empty".to_string()] }]);
    let failed = desk.machines[0].disk_failed("/in/empty", "no space left");
    assert_eq!(
        failed,
        vec![Effect::Refuse {
            paste: 8,
            why: "could not write /in/empty: no space left".to_string()
        }]
    );
}
