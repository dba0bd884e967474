//! The X11 clipboard, with two programs that share a pretended display.
//!
//! One side owns the selection and answers for it; the other asks. Properties
//! and events pass between them the way a display passes them.

use std::collections::{HashMap, VecDeque};

use smkvm::clipboard::ClipboardError;
use smkvm::keeper::{Happened, Keeper, Step};
use smkvm::owner::{Act, Outcome, X11Owner, ATOM, STRING};
use smkvm::proto::ClipFormat;
use smkvm::selection::{
    changed_by_others, read_atoms, unanswered, Atoms, Conversion, Event, Next, Reading, Request,
    Wish, X11Clipboard, ANSWER_TIMEOUT, NONE,
};

const OWNER: u32 = 100;
const READER: u32 = 200;

fn atoms() -> Atoms {
    Atoms {
        clipboard: 70,
        targets: 71,
        incr: 72,
        utf8_string: 73,
        text_plain_utf8: 74,
        text_html: 75,
        image_png: 76,
        uri_list: 77,
        transfer: 78,
    }
}

fn big_endian() -> bool {
    1u16.to_ne_bytes()[0] == 0
}

/// What the display keeps for the two programs.
struct Display {
    owner: Option<X11Owner>,
    /// What the owner's source hands over.
    contents: HashMap<String, Vec<u8>>,
    /// How often the source was asked.
    fetched: usize,
    reader: X11Clipboard,
    properties: HashMap<(u32, u32), (u32, Vec<u8>)>,
    waiting: VecDeque<Event>,
    pieces: Vec<usize>,
}

impl Display {
    fn new() -> Display {
        Display {
            owner: None,
            contents: HashMap::new(),
            fetched: 0,
            reader: X11Clipboard::new(READER, atoms()),
            properties: HashMap::new(),
            waiting: VecDeque::new(),
            pieces: Vec::new(),
        }
    }

    fn offer(&mut self, contents: Vec<(ClipFormat, Vec<u8>)>) {
        let formats: Vec<ClipFormat> = contents.iter().map(|(f, _)| f.clone()).collect();
        self.contents = contents.into_iter().map(|(f, b)| (format!("{f:?}"), b)).collect();
        match &mut self.owner {
            Some(owner) => owner.reoffer(formats),
            None => {
                let taken = X11Owner::take(OWNER, atoms(), formats, 65536, 10, OWNER);
                self.owner = Some(taken.expect("takes the clipboard"));
            }
        }
    }

    fn write(&mut self, window: u32, property: u32, kind: u32, bytes: Vec<u8>) {
        self.properties.insert((window, property), (kind, bytes));
        self.waiting.push_back(Event::Written { window, property, time: 11 });
    }

    fn perform(&mut self, acts: Vec<Act>) {
        for act in acts {
            match act {
                Act::Write32 { window, property, kind, values } => {
                    let bytes = values.iter().flat_map(|v| v.to_ne_bytes()).collect();
                    self.write(window, property, kind, bytes);
                }
                Act::Write8 { window, property, kind, data } => {
                    if kind == STRING {
                        self.pieces.push(data.len());
                    }
                    self.write(window, property, kind, data);
                }
                Act::Follow { window } => assert_eq!(window, READER),
                Act::Tell { request, property } => self
                    .waiting
                    .push_back(Event::Answered { requestor: request.requestor, property }),
            }
        }
    }

    /// Let the owner deal with an event.
    fn serve(&mut self, event: Event) {
        let Some(mut owner) = self.owner.take() else {
            return;
        };
        match owner.dispatch(&event) {
            Outcome::Do(acts) => self.perform(acts),
            Outcome::Fetch(format) => {
                let Event::Asked(request) = event else {
                    unreachable!();
                };
                self.fetched += 1;
                let data = self.contents.get(&format!("{format:?}")).cloned();
                let acts = owner.supplied(request, format, data);
                self.perform(acts);
            }
            Outcome::WhoOwns => unreachable!(),
        }
        self.owner = Some(owner);
    }

    fn delete(&mut self, property: u32) {
        if self.properties.remove(&(READER, property)).is_some() {
            self.serve(Event::Erased { window: READER, property, time: 12 });
        }
    }

    fn next_wanted(&mut self, wish: Wish) -> Option<Event> {
        if let Some(event) = self.reader.take_wanted(wish) {
            return Some(event);
        }
        while let Some(event) = self.waiting.pop_front() {
            if let Some(event) = self.reader.sort_out(wish, event) {
                return Some(event);
            }
        }
        None
    }

    /// Ask the owner for one target.
    fn convert(&mut self, target: u32) -> Result<Vec<u8>, ClipboardError> {
        let transfer = atoms().transfer;
        self.properties.remove(&(READER, transfer));
        let request = Request {
            time: 10,
            requestor: READER,
            selection: atoms().clipboard,
            target,
            property: transfer,
        };
        if self.owner.is_some() {
            self.serve(Event::Asked(request));
        } else {
            self.waiting.push_back(Event::Answered { requestor: READER, property: NONE });
        }
        let mut conversion = Conversion::ask(target);
        loop {
            let Some(event) = self.next_wanted(conversion.wish()) else {
                return Err(unanswered());
            };
            let mut next = conversion.saw(&event);
            if let Next::Read = next {
                let (kind, value) = self.properties[&(READER, transfer)].clone();
                next = conversion.read(atoms().incr, kind, value);
            }
            match next {
                Next::More => self.delete(transfer),
                Next::Done(contents) => {
                    self.delete(transfer);
                    return Ok(contents);
                }
                Next::Failed(e) => return Err(e),
                Next::Wait | Next::Read => {}
            }
        }
    }

    fn available(&mut self) -> Vec<ClipFormat> {
        let answer = self.convert(atoms().targets);
        atoms().available(answer, big_endian()).formats
    }

    fn read(&mut self, format: &ClipFormat) -> Result<Vec<u8>, ClipboardError> {
        let mut reading = Reading::begin(&atoms(), format);
        while let Some(target) = reading.next() {
            match self.convert(target) {
                Ok(bytes) => return Ok(bytes),
                Err(e) => reading.failed(e),
            }
        }
        Err(reading.finish())
    }
}

fn round_trip(contents: Vec<(ClipFormat, Vec<u8>)>) -> Vec<(ClipFormat, Vec<u8>)> {
    let mut display = Display::new();
    display.offer(contents);
    let mut got = Vec::new();
    for format in display.available() {
        let bytes = display.read(&format).expect("reads the clipboard");
        got.push((format, bytes));
    }
    got
}

#[test]
fn text_offered_by_one_connection_is_read_by_another() {
    let got = round_trip(vec![(
        ClipFormat::Text,
        b"hello from the other machine".to_vec(),
    )]);
    assert_eq!(got.len(), 1);
    assert_eq!(got[0].0, ClipFormat::Text);
    assert_eq!(got[0].1, b"hello from the other machine");
}

#[test]
fn several_formats_are_all_offered_and_all_readable() {
    let html = b"<b>hello</b>".to_vec();
    let text = b"hello".to_vec();
    let got = round_trip(vec![
        (ClipFormat::Text, text.clone()),
        (ClipFormat::Html, html.clone()),
    ]);
    let find = |want: ClipFormat| {
        got.iter()
            .find(|(f, _)| *f == want)
            .map(|(_, b)| b.clone())
            .unwrap_or_else(|| panic!("{want:?} was not offered"))
    };
    assert_eq!(find(ClipFormat::Text), text);
    assert_eq!(find(ClipFormat::Html), html);
}

#[test]
fn something_far_too_large_for_one_message_still_arrives_whole() {
    // The case a fixed size limit would quietly drop: a screenshot-sized
    // payload, which has to be sent a piece at a time.
    let big: Vec<u8> = (0..3_000_000u32).map(|i| (i % 251) as u8).collect();
    let got = round_trip(vec![(ClipFormat::Png, big.clone())]);
    assert_eq!(got.len(), 1);
    assert_eq!(got[0].1.len(), big.len(), "arrived short");
    assert_eq!(got[0].1, big, "arrived corrupted");
}

#[test]
fn pieces_are_no_larger_than_the_display_takes_and_an_empty_one_ends_them() {
    let mut display = Display::new();
    display.offer(vec![(ClipFormat::Png, vec![7; 70_000])]);
    assert_eq!(display.read(&ClipFormat::Png), Ok(vec![7; 70_000]));
    assert_eq!(display.pieces, vec![32768, 32768, 4464, 0]);
    assert_eq!(display.fetched, 1);
    // Something that fits goes at once, and a second paste does not fetch again.
    display.offer(vec![(ClipFormat::Text, b"x".to_vec())]);
    assert_eq!(display.read(&ClipFormat::Text), Ok(b"x".to_vec()));
    assert_eq!(display.read(&ClipFormat::Text), Ok(b"x".to_vec()));
    assert_eq!((display.pieces.len(), display.fetched), (4, 2));
}

#[test]
fn what_is_not_offered_or_cannot_be_had_is_declined() {
    let mut display = Display::new();
    display.offer(vec![(ClipFormat::Text, b"x".to_vec())]);
    let refused = display.read(&ClipFormat::Html).unwrap_err();
    assert_eq!(
        refused.message(),
        "the owning application would not hand over Other(\"target 75\")"
    );
    display.contents.clear();
    assert!(display.read(&ClipFormat::Text).is_err(), "the source has nothing");
    let other = ClipFormat::Other("x".to_string());
    assert_eq!(
        display.read(&other),
        Err(ClipboardError::Refused(ClipFormat::Other("x".to_string())))
    );
    let mut nobody = Display::new();
    assert!(nobody.available().is_empty(), "nothing owns the clipboard");
    assert_eq!(
        unanswered().message(),
        "display server: the application holding the clipboard did not answer"
    );
    assert_eq!(ANSWER_TIMEOUT, 5000);
}

#[test]
fn the_second_offer_is_served_whatever_became_of_the_first() {
    // Something pastes the first offer, and the owner is waiting on the fetch.
    let mut owner =
        X11Owner::take(OWNER, atoms(), vec![ClipFormat::Text], 0, 10, OWNER).unwrap();
    let request = Request {
        time: 10,
        requestor: READER,
        selection: 70,
        target: 73,
        property: 78,
    };
    assert_eq!(owner.answer(request), Outcome::Fetch(ClipFormat::Text));
    // The second offer lands while the first is still being fetched, and the
    // first fetch comes back a failure, as a stale fetch does.
    owner.reoffer(vec![ClipFormat::Text]);
    let declined = vec![Act::Tell { request, property: NONE }];
    assert_eq!(owner.supplied(request, ClipFormat::Text, None), declined);
    // And a paste now gets the second offer.
    assert_eq!(owner.answer(request), Outcome::Fetch(ClipFormat::Text));
    assert_eq!(
        owner.supplied(request, ClipFormat::Text, Some(b"second".to_vec())),
        vec![
            Act::Write8 { window: READER, property: 78, kind: 73, data: b"second".to_vec() },
            Act::Tell { request, property: 78 },
        ]
    );
}

#[test]
fn letting_go_and_taking_again_still_answers() {
    // Giving a selection up sends its owner a notice. Taken again straight
    // after, that notice arrives on the new ownership and must not be mistaken
    // for somebody else copying.
    let mut owner =
        X11Owner::take(OWNER, atoms(), vec![ClipFormat::Text], 0, 10, OWNER).unwrap();
    assert_eq!(owner.dispatch(&Event::Cleared { time: 9 }), Outcome::Do(vec![]));
    assert_eq!(owner.dispatch(&Event::Cleared { time: 10 }), Outcome::WhoOwns);
    assert!(owner.owner_is(OWNER) && owner.owns_clipboard());
    // Somebody else really copied.
    assert_eq!(owner.dispatch(&Event::Cleared { time: 11 }), Outcome::WhoOwns);
    assert!(!owner.owner_is(999));
    assert!(!owner.owns_clipboard());
    assert!(!owner.release(), "there is nothing to give back");
    assert_eq!(
        X11Owner::take(OWNER, atoms(), Vec::new(), 0, 10, 999).err(),
        Some(ClipboardError::Busy)
    );
}

#[test]
fn an_old_requestor_gets_its_answer_where_it_looks_for_it() {
    let mut owner =
        X11Owner::take(OWNER, atoms(), vec![ClipFormat::Text], 0, 10, OWNER).unwrap();
    let request = Request { time: 1, requestor: 5, selection: 70, target: 71, property: NONE };
    assert_eq!(
        owner.answer(request),
        Outcome::Do(vec![
            Act::Write32 { window: 5, property: 71, kind: ATOM, values: vec![71, 73, 74] },
            Act::Tell { request, property: 71 },
        ])
    );
    assert_eq!(owner.window(), OWNER);
    assert!(owner.continue_incremental(5, 71).is_empty(), "nothing is being sent there");
}

#[test]
fn the_watcher_keeps_noticing_after_it_has_looked() {
    // Looking at a copy asks its owner questions, and the answers leave events
    // on the watcher's connection; the next copy has to get through regardless.
    let mut display = Display::new();
    for text in ["first", "second", "third"] {
        display.offer(vec![(ClipFormat::Text, text.as_bytes().to_vec())]);
        display.waiting.push_back(Event::OwnerChanged { owner: 1000 });
        assert_eq!(display.available(), vec![ClipFormat::Text], "after the {text} copy");
        // What was seen meanwhile and is news was kept; what is not was dropped.
        let held = display.reader.next_held().expect("the change was kept");
        assert!(changed_by_others(&held, Some(OWNER)));
        assert!(display.reader.next_held().is_none());
    }
    let ours = Event::OwnerChanged { owner: OWNER };
    assert!(!changed_by_others(&ours, Some(OWNER)), "our own offer is not a copy");
    assert!(changed_by_others(&ours, None));
    assert!(!changed_by_others(&Event::Other, None));
}

#[test]
fn targets_are_read_in_the_byte_order_of_the_machine() {
    let bytes = [73, 0, 0, 0, 0, 0, 0, 75, 9];
    assert_eq!(read_atoms(&bytes, false), vec![73, 75 << 24]);
    assert_eq!(read_atoms(&bytes, true), vec![73 << 24, 75]);
    let twice = [74u32, 73, 99, 75].iter().flat_map(|a| a.to_le_bytes()).collect();
    let available = atoms().available(Ok(twice), false);
    assert_eq!(available.formats, vec![ClipFormat::Text, ClipFormat::Html]);
    assert!(available.has(&ClipFormat::Html) && !available.has(&ClipFormat::Png));
    assert!(!available.is_empty());
}

// --- the thread that keeps an offer alive -----------------------------------

#[test]
fn the_owner_thread_serves_an_offer_and_hides_its_own_change_from_the_watcher() {
    let mut keeper = Keeper::new();
    assert_eq!(keeper.owner_window(), NONE);
    assert_eq!(keeper.happened(Happened::Offer { owns: false }), Step::Take);
    assert_eq!(keeper.happened(Happened::Took { window: Some(OWNER) }), Step::Serve);
    let ours = Event::OwnerChanged { owner: OWNER };
    assert!(!changed_by_others(&ours, Some(keeper.owner_window())));
    assert_eq!(keeper.happened(Happened::Served { owns: true }), Step::Rest);
    assert_eq!(keeper.happened(Happened::Tick), Step::Serve);
    // Something else copies: that is a change, and it ends our ownership.
    assert_eq!(keeper.happened(Happened::Served { owns: false }), Step::LetGo);
    assert_eq!(keeper.owner_window(), NONE);
    assert_eq!(keeper.happened(Happened::LetGo { ok: true }), Step::Rest);
    assert_eq!(keeper.happened(Happened::Tick), Step::Rest);
}

#[test]
fn a_new_offer_goes_through_the_window_already_held() {
    let mut keeper = Keeper::new();
    keeper.happened(Happened::Offer { owns: false });
    keeper.happened(Happened::Took { window: Some(OWNER) });
    keeper.happened(Happened::Served { owns: true });
    assert_eq!(keeper.happened(Happened::Offer { owns: true }), Step::Reoffer);
    assert_eq!(keeper.owner_window(), OWNER);
    // One that was lost without our noticing is let go of first.
    assert_eq!(keeper.happened(Happened::Offer { owns: false }), Step::LetGo);
    assert_eq!(keeper.happened(Happened::LetGo { ok: false }), Step::Connect);
    assert_eq!(keeper.happened(Happened::Connected { ok: false }), Step::Connect);
    assert_eq!(keeper.happened(Happened::Connected { ok: false }), Step::GiveUp);
    assert_eq!(keeper.happened(Happened::Offer { owns: false }), Step::Connect);
    assert_eq!(keeper.happened(Happened::Connected { ok: true }), Step::Take);
    assert_eq!(keeper.happened(Happened::Took { window: None }), Step::Connect);
    assert_eq!(keeper.happened(Happened::Connected { ok: true }), Step::Rest);
}

#[test]
fn the_thread_gives_the_clipboard_back_on_its_way_out() {
    let mut keeper = Keeper::new();
    keeper.happened(Happened::Offer { owns: false });
    keeper.happened(Happened::Took { window: Some(OWNER) });
    assert_eq!(keeper.happened(Happened::ServingFailed), Step::Connect);
    assert_eq!(keeper.happened(Happened::Connected { ok: true }), Step::Rest);
    assert_eq!(keeper.happened(Happened::Release), Step::Rest, "nothing is held");
    keeper.happened(Happened::Offer { owns: false });
    keeper.happened(Happened::Took { window: Some(OWNER) });
    keeper.happened(Happened::Served { owns: true });
    assert_eq!(keeper.happened(Happened::Closed), Step::LetGo);
    assert_eq!(keeper.happened(Happened::LetGo { ok: true }), Step::Stop);
    assert_eq!(keeper.happened(Happened::Tick), Step::Stop);
}
