//! Picking up what is being dragged, on X11 and on Windows, and dropping it.

use smkvm::clipboard::ClipboardError;
use smkvm::files::hdrop_of;
use smkvm::windows_drag::{
    corner, drag_outcome, entered, nameable, packed, paths_in, query_continue, unpacked,
    Act as WindowsAct, DropCatcher, Ended, Going, Seen,
};
use smkvm::xdnd::{Act, DndAtoms, DndCatcher, Drive, Happened, Words, XDND_VERSION};

const WINDOW: u32 = 50;
const SOURCE: u32 = 60;

fn atoms() -> DndAtoms {
    DndAtoms {
        aware: 1,
        enter: 2,
        position: 3,
        status: 4,
        drop: 5,
        finished: 6,
        selection: 7,
        type_list: 8,
        action_copy: 9,
        uri_list: 10,
        transfer: 11,
    }
}

fn words(l0: u32, l1: u32, l2: u32, l3: u32, l4: u32) -> Words {
    Words { l0, l1, l2, l3, l4 }
}

fn message(kind: u32, data: Words) -> Happened {
    Happened::Message { window: WINDOW, kind, data }
}

fn accepted() -> Act {
    Act::Tell { to: SOURCE, kind: 4, data: words(WINDOW, 1, 0, 0, 9) }
}

fn finished() -> Act {
    Act::Tell { to: SOURCE, kind: 6, data: words(WINDOW, 1, 9, 0, 0) }
}

/// A catch that an application with files has noticed.
fn noticed() -> DndCatcher {
    let (mut catcher, begun) = DndCatcher::begin(WINDOW, atoms(), 300, 300);
    assert_eq!(
        begun,
        vec![
            Act::Stand { x: 268, y: 268 },
            Act::Drive(Drive::MoveTo(301, 300)),
            Act::Drive(Drive::MoveTo(300, 300)),
        ]
    );
    let enter = message(2, words(SOURCE, XDND_VERSION << 24, 10, 0, 0));
    assert!(catcher.happened(enter).is_empty());
    catcher
}

#[test]
fn a_drag_in_progress_is_caught_with_its_files_and_ended_on_the_catcher() {
    let mut catcher = noticed();
    assert_eq!(catcher.patience(), Some(250));
    // A message to another window is not for this one.
    let elsewhere = Happened::Message { window: 1, kind: 3, data: words(SOURCE, 0, 0, 0, 0) };
    assert!(catcher.happened(elsewhere).is_empty());
    assert_eq!(catcher.happened(message(3, words(SOURCE, 0, 0, 0, 9))), vec![accepted()]);
    assert_eq!(
        catcher.happened(Happened::Told { ok: true }),
        vec![Act::Drive(Drive::ReleaseLeft)]
    );
    assert_eq!(catcher.patience(), Some(500));
    // The application asks once more before it drops.
    assert!(catcher.happened(message(3, words(SOURCE, 0, 0, 0, 9))).is_empty());
    assert_eq!(
        catcher.happened(message(5, words(SOURCE, 0, 77, 0, 0))),
        vec![accepted(), Act::AskForList { time: 77 }]
    );
    let answered = Happened::Answered { requestor: WINDOW, property: 11 };
    assert_eq!(catcher.happened(answered), vec![Act::ReadList]);
    let contents =
        b"file:///home/user/photos/a%20b.jpg\r\nfile:///home/user/notes.txt\r\n".to_vec();
    assert_eq!(
        catcher.happened(Happened::List { width: 8, value: contents }),
        vec![finished(), Act::Withdraw],
        "the application was told the drop is finished"
    );
    assert!(catcher.is_over());
    assert_eq!(
        catcher.finish(),
        Some(vec![
            "/home/user/photos/a b.jpg".to_string(),
            "/home/user/notes.txt".to_string(),
        ])
    );
}

#[test]
fn with_nothing_being_dragged_the_button_is_left_alone() {
    let (mut catcher, begun) = DndCatcher::begin(WINDOW, atoms(), 10, -5);
    assert!(!begun.contains(&Act::Drive(Drive::ReleaseLeft)));
    assert_eq!(catcher.happened(Happened::Missed), vec![Act::Withdraw]);
    assert!(catcher.is_over());
    assert_eq!(catcher.finish(), None);
}

#[test]
fn a_drag_without_files_is_let_be() {
    let (mut catcher, _) = DndCatcher::begin(WINDOW, atoms(), 0, 0);
    let enter = message(2, words(SOURCE, 5 << 24, 33, 0, 34));
    assert_eq!(catcher.happened(enter), vec![Act::Withdraw]);
    // One with more types than a message holds has them on its window.
    let (mut catcher, _) = DndCatcher::begin(WINDOW, atoms(), 0, 0);
    let enter = message(2, words(SOURCE, (5 << 24) + 1, 10, 0, 0));
    assert_eq!(catcher.happened(enter), vec![Act::ReadTypes { source: SOURCE }]);
    assert_eq!(catcher.happened(Happened::Types(vec![33, 34, 35, 36])), vec![Act::Withdraw]);
    let (mut catcher, _) = DndCatcher::begin(WINDOW, atoms(), 0, 0);
    catcher.happened(message(2, words(SOURCE, (5 << 24) + 1, 0, 0, 0)));
    assert!(catcher.happened(Happened::Types(vec![33, 34, 35, 10])).is_empty());
    assert!(!catcher.is_over());
}

#[test]
fn a_drag_that_goes_wrong_leaves_nothing_behind() {
    // The application cannot be told it is welcome.
    let mut catcher = noticed();
    assert_eq!(catcher.happened(Happened::Missed), vec![accepted()]);
    assert_eq!(catcher.happened(Happened::Told { ok: false }), vec![Act::Withdraw]);
    // The drop never comes.
    let mut catcher = noticed();
    catcher.happened(Happened::Missed);
    catcher.happened(Happened::Told { ok: true });
    assert_eq!(catcher.happened(Happened::Missed), vec![Act::Withdraw]);
    // The list is declined, does not come, or is not one.
    for what in [
        Happened::Answered { requestor: WINDOW, property: 0 },
        Happened::Missed,
    ] {
        let mut catcher = noticed();
        catcher.happened(Happened::Missed);
        catcher.happened(Happened::Told { ok: true });
        catcher.happened(message(5, words(SOURCE, 0, 0, 0, 0)));
        assert_eq!(catcher.happened(what), vec![finished(), Act::Withdraw]);
        assert_eq!(catcher.finish(), None);
    }
    for (width, value) in [(8, b"# nothing".to_vec()), (8, Vec::new()), (32, b"/x".to_vec())] {
        let mut catcher = noticed();
        catcher.happened(Happened::Missed);
        catcher.happened(Happened::Told { ok: true });
        catcher.happened(message(5, words(SOURCE, 0, 0, 0, 0)));
        catcher.happened(Happened::Answered { requestor: WINDOW, property: 11 });
        let ended = catcher.happened(Happened::List { width, value });
        assert_eq!(ended, vec![finished(), Act::Withdraw]);
        assert_eq!(catcher.finish(), None);
    }
}

// --- Windows ------------------------------------------------------------------

#[test]
fn files_dragged_on_windows_are_caught_and_the_drag_ended() {
    let (mut catcher, away, back) = DropCatcher::begin(-5, 7);
    assert_eq!((away, back), (Drive::MoveTo(-4, 7), Drive::MoveTo(-5, 7)));
    assert_eq!(catcher.patience(), 250);
    assert_eq!(catcher.saw(Seen::Dropped), WindowsAct::Wait, "left from an earlier attempt");
    let paths = vec![r"C:\a.txt".to_string()];
    assert_eq!(catcher.saw(Seen::Entered(paths.clone())), WindowsAct::Release);
    assert_eq!(catcher.patience(), 400);
    assert_eq!(catcher.saw(Seen::Entered(Vec::new())), WindowsAct::Wait);
    assert_eq!(catcher.saw(Seen::Dropped), WindowsAct::Withdraw);
    assert_eq!(catcher.finish(), Some(paths));

    // The notice of the drop is a courtesy, not a need.
    let (mut catcher, _, _) = DropCatcher::begin(0, 0);
    catcher.saw(Seen::Entered(vec!["x".to_string()]));
    assert_eq!(catcher.saw(Seen::Nothing), WindowsAct::Withdraw);
    assert!(catcher.finish().is_some());
    // Nothing was being dragged.
    let (mut catcher, _, _) = DropCatcher::begin(0, 0);
    assert_eq!(catcher.saw(Seen::Nothing), WindowsAct::Withdraw);
    assert_eq!(catcher.finish(), None);
    // It carried no files.
    let (mut catcher, _, _) = DropCatcher::begin(0, 0);
    catcher.saw(Seen::Entered(Vec::new()));
    catcher.saw(Seen::Dropped);
    assert_eq!(catcher.finish(), None);
}

#[test]
fn what_dragged_data_carries_is_read() {
    let paths = vec![r"C:\a b.txt".to_string(), r"D:\x".to_string()];
    let list = hdrop_of(&paths);
    assert_eq!(paths_in(&list), Some(paths.clone()));
    assert_eq!(paths_in(b"nonsense"), None);
    assert_eq!(entered(Some(list)), paths);
    assert!(entered(Some(b"nonsense".to_vec())).is_empty());
    assert!(entered(None).is_empty());
}

#[test]
fn negative_coordinates_arrive_as_they_were_sent() {
    for (x, y) in [(0, 0), (-1920, -1), (i32::MIN, i32::MAX), (5, -5)] {
        let (w, l) = packed(x, y);
        assert_eq!(unpacked(w, l), (x, y));
    }
    assert_eq!(corner(100, -100), (68, -132));
}

#[test]
fn a_drag_ends_with_the_button_or_with_escape() {
    assert_eq!(query_continue(false, 1), Going::On);
    assert_eq!(query_continue(false, 0), Going::Dropped);
    assert_eq!(query_continue(false, 0x10), Going::Dropped);
    assert_eq!(query_continue(true, 1), Going::Cancelled);
    assert_eq!(drag_outcome(Ended::Dropped { taken: true }), Ok(true));
    assert_eq!(drag_outcome(Ended::Dropped { taken: false }), Ok(false));
    assert_eq!(drag_outcome(Ended::Cancelled), Ok(false));
    assert_eq!(
        drag_outcome(Ended::Failed("0x80004005".to_string())),
        Err(ClipboardError::Display("DoDragDrop: 0x80004005".to_string()))
    );
    assert_eq!(
        drag_outcome(Ended::Unmade("0x80070057".to_string())),
        Err(ClipboardError::Display(
            "making a data object for the files: 0x80070057".to_string()
        ))
    );
    assert!(nameable(1).is_ok());
    assert_eq!(
        nameable(0).unwrap_err().message(),
        "display server: none of the landed files could be named to the shell"
    );
}
