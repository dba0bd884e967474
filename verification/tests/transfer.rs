//! Passing pieces of files between machines.

use smkvm::layout::DeviceId;
use smkvm::proto::{Bulk, TransferId};
use smkvm::transfer::{Input, Output, Transfer};

fn dev(n: u8) -> DeviceId {
    DeviceId::from_bytes([n; 32])
}
const SERVER: u8 = 1;
const A: u8 = 2;
const B: u8 = 3;

fn id(owner: u8) -> TransferId {
    TransferId {
        device: dev(owner),
        counter: 7,
    }
}

fn hub_with(peers: &[u8]) -> Transfer {
    let mut hub = Transfer::new(dev(SERVER), None);
    for p in peers {
        hub.handle(Input::PeerUp(dev(*p)));
    }
    hub
}

#[test]
fn a_client_asks_the_server_whoever_has_the_file() {
    let mut client = Transfer::new(dev(B), Some(dev(SERVER)));
    client.handle(Input::PeerUp(dev(SERVER)));
    let out = client.handle(Input::Pull {
        id: id(A),
        index: 0,
        offset: 0,
    });
    assert_eq!(
        out,
        vec![Output::Send {
            to: dev(SERVER),
            msg: Bulk::FileRequest {
                id: id(A),
                index: 0,
                offset: 0
            }
        }]
    );
}

#[test]
fn the_server_passes_a_request_to_the_owner_and_the_chunk_back() {
    let mut hub = hub_with(&[A, B]);
    let out = hub.handle(Input::FromPeer {
        from: dev(B),
        msg: Bulk::FileRequest {
            id: id(A),
            index: 2,
            offset: 4096,
        },
    });
    assert_eq!(
        out,
        vec![Output::Send {
            to: dev(A),
            msg: Bulk::FileRequest {
                id: id(A),
                index: 2,
                offset: 4096
            }
        }]
    );
    let out = hub.handle(Input::FromPeer {
        from: dev(A),
        msg: Bulk::FileChunk {
            id: id(A),
            index: 2,
            offset: 4096,
            data: vec![9; 10],
            last: true,
        },
    });
    assert_eq!(
        out,
        vec![Output::Send {
            to: dev(B),
            msg: Bulk::FileChunk {
                id: id(A),
                index: 2,
                offset: 4096,
                data: vec![9; 10],
                last: true
            }
        }]
    );
    // Answered once; a second copy of the chunk goes nowhere.
    let out = hub.handle(Input::FromPeer {
        from: dev(A),
        msg: Bulk::FileChunk {
            id: id(A),
            index: 2,
            offset: 4096,
            data: vec![9; 10],
            last: true,
        },
    });
    assert!(out.is_empty());
}

#[test]
fn the_owner_is_asked_to_read_its_own_file() {
    let mut owner = Transfer::new(dev(A), Some(dev(SERVER)));
    let out = owner.handle(Input::FromPeer {
        from: dev(SERVER),
        msg: Bulk::FileRequest {
            id: id(A),
            index: 0,
            offset: 0,
        },
    });
    assert_eq!(
        out,
        vec![Output::ReadFile {
            to: dev(SERVER),
            id: id(A),
            index: 0,
            offset: 0
        }]
    );
}

#[test]
fn a_chunk_this_machine_asked_for_is_handed_over_and_an_unasked_one_is_not() {
    let mut client = Transfer::new(dev(B), Some(dev(SERVER)));
    client.handle(Input::PeerUp(dev(SERVER)));
    client.handle(Input::Pull {
        id: id(A),
        index: 0,
        offset: 0,
    });
    let chunk = |offset: u64| Bulk::FileChunk {
        id: id(A),
        index: 0,
        offset,
        data: vec![1, 2, 3],
        last: false,
    };
    assert_eq!(
        client.handle(Input::FromPeer {
            from: dev(SERVER),
            msg: chunk(0)
        }),
        vec![Output::Chunk {
            id: id(A),
            index: 0,
            offset: 0,
            data: vec![1, 2, 3],
            last: false
        }]
    );
    // Wrong offset, wrong sender: neither is delivered.
    assert!(client
        .handle(Input::FromPeer {
            from: dev(SERVER),
            msg: chunk(3)
        })
        .is_empty());
    client.handle(Input::Pull {
        id: id(A),
        index: 0,
        offset: 3,
    });
    assert!(client
        .handle(Input::FromPeer {
            from: dev(A),
            msg: chunk(3)
        })
        .is_empty());
}

#[test]
fn a_request_for_a_machine_that_is_not_here_is_refused_at_once() {
    let mut hub = hub_with(&[B]);
    let out = hub.handle(Input::FromPeer {
        from: dev(B),
        msg: Bulk::FileRequest {
            id: id(A),
            index: 0,
            offset: 0,
        },
    });
    assert!(matches!(
        out.as_slice(),
        [Output::Send {
            to,
            msg: Bulk::FileAbort { id: aborted, .. }
        }] if *to == dev(B) && *aborted == id(A)
    ));
}

#[test]
fn the_owner_leaving_aborts_what_was_passed_on_and_fails_what_was_pulled() {
    let mut hub = hub_with(&[A, B]);
    hub.handle(Input::FromPeer {
        from: dev(B),
        msg: Bulk::FileRequest {
            id: id(A),
            index: 0,
            offset: 0,
        },
    });
    hub.handle(Input::FromPeer {
        from: dev(B),
        msg: Bulk::FileRequest {
            id: id(A),
            index: 1,
            offset: 0,
        },
    });
    // The server itself is pasting the same transfer.
    hub.handle(Input::Pull {
        id: id(A),
        index: 0,
        offset: 0,
    });
    let out = hub.handle(Input::PeerGone(dev(A)));
    assert_eq!(
        out.len(),
        2,
        "B is told once, and the server's own pull fails"
    );
    assert!(matches!(
        &out[0],
        Output::Send {
            to,
            msg: Bulk::FileAbort { id: aborted, .. }
        } if *to == dev(B) && *aborted == id(A)
    ));
    assert_eq!(out[1], Output::Failed(id(A)));
}

#[test]
fn an_abort_from_the_owner_reaches_everyone_waiting() {
    let mut hub = hub_with(&[A, B]);
    hub.handle(Input::FromPeer {
        from: dev(B),
        msg: Bulk::FileRequest {
            id: id(A),
            index: 0,
            offset: 0,
        },
    });
    let out = hub.handle(Input::FromPeer {
        from: dev(A),
        msg: Bulk::FileAbort {
            id: id(A),
            reason: "gone".into(),
        },
    });
    assert_eq!(
        out,
        vec![Output::Send {
            to: dev(B),
            msg: Bulk::FileAbort {
                id: id(A),
                reason: "gone".into()
            }
        }],
        "the reason travels with it"
    );
    let mut client = Transfer::new(dev(B), Some(dev(SERVER)));
    client.handle(Input::PeerUp(dev(SERVER)));
    client.handle(Input::Pull {
        id: id(A),
        index: 0,
        offset: 0,
    });
    let out = client.handle(Input::FromPeer {
        from: dev(SERVER),
        msg: Bulk::FileAbort {
            id: id(A),
            reason: "gone".into(),
        },
    });
    assert_eq!(out, vec![Output::Failed(id(A))]);
}

#[test]
fn interest_lost_in_a_transfer_ends_it() {
    let mut client = Transfer::new(dev(B), Some(dev(SERVER)));
    client.handle(Input::PeerUp(dev(SERVER)));
    client.handle(Input::Pull { id: id(A), index: 0, offset: 0 });
    assert!(client.handle(Input::Drop(id(A))).is_empty());
    // The chunk that was on its way is no longer anyone's.
    let late = Bulk::FileChunk { id: id(A), index: 0, offset: 0, data: vec![1], last: true };
    assert!(client.handle(Input::FromPeer { from: dev(SERVER), msg: late }).is_empty());
    // And the server leaving fails nothing that is not being pulled.
    assert!(client.handle(Input::PeerGone(dev(SERVER))).is_empty());
}

#[test]
fn a_hub_asked_for_a_file_of_a_machine_that_is_not_here_fails_at_once() {
    let mut hub = hub_with(&[B]);
    let out = hub.handle(Input::Pull { id: id(A), index: 0, offset: 0 });
    assert_eq!(out, vec![Output::Failed(id(A))]);
    hub.set_hub(Some(dev(B)));
    let out = hub.handle(Input::Pull { id: id(A), index: 0, offset: 0 });
    assert!(matches!(&out[..], [Output::Send { to, .. }] if *to == dev(B)));
}

#[test]
fn two_machines_asking_for_the_same_piece_are_both_answered() {
    const C: u8 = 4;
    let mut hub = hub_with(&[A, B, C]);
    for asker in [B, C] {
        let out = hub.handle(Input::FromPeer {
            from: dev(asker),
            msg: Bulk::FileRequest { id: id(A), index: 0, offset: 0 },
        });
        assert!(matches!(out[..], [Output::Send { to, .. }] if to == dev(A)), "{out:?}");
    }
    let piece = || Input::FromPeer {
        from: dev(A),
        msg: Bulk::FileChunk { id: id(A), index: 0, offset: 0, data: vec![1, 2], last: true },
    };
    // Whoever asked first is answered first.
    let first = hub.handle(piece());
    assert!(matches!(first[..], [Output::Send { to, .. }] if to == dev(B)), "{first:?}");
    let second = hub.handle(piece());
    assert!(matches!(second[..], [Output::Send { to, .. }] if to == dev(C)), "{second:?}");
    assert!(hub.handle(piece()).is_empty());
}
