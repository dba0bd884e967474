//! Messages, and what is asked of the system, are what is seen of them: nothing in
//! them is lost or exchanged.

use vstd::prelude::*;

use crate::clipboard::{error_message, ClipboardError, ClipboardErrorView};
use crate::control::{
    ClientControl, ClientControlView, Hello, HelloView, Reject, RejectView, ServerControl,
    ServerControlView,
};
use crate::proto::{
    Bulk, BulkView, ClipEntry, ClipError, ClipFormat, ClipOffer, EntryView, FileEntry, FileOffer,
    FileOfferView, FileView, FormatView, OfferView,
};
use crate::sharing::{Effect, EffectView, SharingView};
use crate::survey::{Child, ChildView, Copied, CopiedView, Found, FoundView, Offered, OfferedView};
use crate::{daemon, exchange, owner, transfer, windows};

verus! {

/// What may come back of a request for contents.
pub open spec fn held(result: Result<Vec<u8>, ClipError>) -> Result<Seq<u8>, ClipError> {
    match result {
        Ok(data) => Ok(data@),
        Err(why) => Err(why),
    }
}

// --- what machines say to each other ------------------------------------------------

/// A format is the one that is seen.
pub proof fn a_format_is_what_is_seen_of_it(format: ClipFormat)
    ensures
        match format {
            ClipFormat::Text => format.deep_view() == FormatView::Text,
            ClipFormat::Html => format.deep_view() == FormatView::Html,
            ClipFormat::Png => format.deep_view() == FormatView::Png,
            ClipFormat::Uris => format.deep_view() == FormatView::Uris,
            ClipFormat::Other(name) => format.deep_view() == FormatView::Other(name@),
        },
{
}

/// An offer is what is seen of it, entry by entry.
pub proof fn an_offer_is_what_is_seen_of_it(
    offer: ClipOffer,
    entry: ClipEntry,
    files: FileOffer,
    file: FileEntry,
)
    ensures
        offer.deep_view() == (OfferView { seq: offer.seq, entries: offer.entries.deep_view() }),
        entry.deep_view() == (EntryView {
            format: entry.format.deep_view(),
            bytes: entry.bytes,
            hash: entry.hash,
        }),
        files.deep_view() == (FileOfferView {
            id: files.id,
            files: files.files.deep_view(),
            total_bytes: files.total_bytes,
        }),
        file.deep_view() == (FileView { path: file.path@, bytes: file.bytes, is_dir: file.is_dir }),
{
}

/// What is said about clipboards and files is what is seen of it.
pub proof fn what_is_shared_is_what_is_seen_of_it(msg: Bulk)
    ensures
        match msg {
            Bulk::ClipOffer(offer) => msg.deep_view() == BulkView::ClipOffer(offer.deep_view()),
            Bulk::ClipRequest { seq, format, offset } => msg.deep_view() == (BulkView::ClipRequest {
                seq,
                format: format.deep_view(),
                offset,
            }),
            Bulk::ClipChunk { seq, format, offset, data, last } => msg.deep_view()
                == (BulkView::ClipChunk {
                seq,
                format: format.deep_view(),
                offset,
                data: data@,
                last,
            }),
            Bulk::ClipUnavailable { seq, format, reason } => msg.deep_view()
                == (BulkView::ClipUnavailable { seq, format: format.deep_view(), reason }),
            Bulk::ClipCancel { seq, format } => msg.deep_view() == (BulkView::ClipCancel {
                seq,
                format: format.deep_view(),
            }),
            Bulk::FileOffer(offer) => msg.deep_view() == BulkView::FileOffer(offer.deep_view()),
            Bulk::FileRequest { id, index, offset } => msg.deep_view() == (BulkView::FileRequest {
                id,
                index,
                offset,
            }),
            Bulk::FileChunk { id, index, offset, data, last } => msg.deep_view()
                == (BulkView::FileChunk { id, index, offset, data: data@, last }),
            Bulk::FileDone { id } => msg.deep_view() == (BulkView::FileDone { id }),
            Bulk::FileAbort { id, reason } => msg.deep_view() == (BulkView::FileAbort {
                id,
                reason: reason@,
            }),
        },
{
}

/// An introduction is what is seen of it, and so is the reason one is refused for.
pub proof fn an_introduction_is_what_is_seen_of_it(
    hello: Hello,
    refused: Reject,
    msg: ServerControl,
)
    ensures
        hello.deep_view() == (HelloView {
            proto: hello.proto,
            device: hello.device,
            name: hello.name@,
            role: hello.role,
        }),
        match refused {
            Reject::ProtocolVersion { theirs, ours } => refused.deep_view()
                == (RejectView::ProtocolVersion { theirs, ours }),
            Reject::Other(why) => refused.deep_view() == RejectView::Other(why@),
        },
        match msg {
            ServerControl::Hello(hello) => msg.deep_view() == ServerControlView::Hello(
                hello.deep_view(),
            ),
            ServerControl::Rejected { reason } => msg.deep_view() == (ServerControlView::Rejected {
                reason: reason.deep_view(),
            }),
            ServerControl::Bulk(bulk) => msg.deep_view() == ServerControlView::Bulk(
                bulk.deep_view(),
            ),
            _ => true,
        },
{
}

/// What a client says is what is seen of it.
pub proof fn what_a_client_says_is_what_is_seen_of_it(msg: ClientControl)
    ensures
        match msg {
            ClientControl::Hello(hello) => msg.deep_view() == ClientControlView::Hello(
                hello.deep_view(),
            ),
            ClientControl::Monitors { monitors } => msg.deep_view() == (ClientControlView::Monitors {
                monitors: monitors.deep_view(),
            }),
            ClientControl::Suspended { reason } => msg.deep_view() == (
            ClientControlView::Suspended { reason }),
            ClientControl::Resumed => msg.deep_view() is Resumed,
            ClientControl::KeyStateReport { pressed, buttons } => msg.deep_view()
                == (ClientControlView::KeyStateReport { pressed: pressed@, buttons: buttons@ }),
            ClientControl::Ping { id } => msg.deep_view() == (ClientControlView::Ping { id }),
            ClientControl::Pong { id } => msg.deep_view() == (ClientControlView::Pong { id }),
            ClientControl::Goodbye => msg.deep_view() is Goodbye,
            ClientControl::Bulk(bulk) => msg.deep_view() == ClientControlView::Bulk(
                bulk.deep_view(),
            ),
        },
{
}

// --- what is asked of the clipboard ---------------------------------------------------

/// What the clipboard is told, and what it asks for, is what is seen of it.
pub proof fn what_a_clipboard_is_told_is_what_is_seen_of_it(
    input: exchange::Input,
    output: exchange::Output,
)
    ensures
        match input {
            exchange::Input::PeerUp(peer) => input.deep_view() == exchange::InputView::PeerUp(peer),
            exchange::Input::PeerGone(peer) => input.deep_view() == exchange::InputView::PeerGone(
                peer,
            ),
            exchange::Input::LocalChanged(formats) => input.deep_view()
                == exchange::InputView::LocalChanged(formats.deep_view()),
            exchange::Input::FromPeer { from, msg } => input.deep_view()
                == (exchange::InputView::FromPeer { from, msg: msg.deep_view() }),
            exchange::Input::Wanted { ticket, seq, format } => input.deep_view()
                == (exchange::InputView::Wanted { ticket, seq, format: format.deep_view() }),
            exchange::Input::ReadDone { seq, format, result } => input.deep_view()
                == (exchange::InputView::ReadDone {
                seq,
                format: format.deep_view(),
                result: held(result),
            }),
        },
        match output {
            exchange::Output::Send { to, msg } => output.deep_view()
                == (exchange::OutputView::Send { to, msg: msg.deep_view() }),
            exchange::Output::OfferLocally { seq, formats } => output.deep_view()
                == (exchange::OutputView::OfferLocally { seq, formats: formats.deep_view() }),
            exchange::Output::ReleaseLocally => output.deep_view() is ReleaseLocally,
            exchange::Output::ReadLocal { seq, format } => output.deep_view()
                == (exchange::OutputView::ReadLocal { seq, format: format.deep_view() }),
            exchange::Output::Deliver { ticket, result } => output.deep_view()
                == (exchange::OutputView::Deliver { ticket, result: held(result) }),
        },
{
}

/// What is asked of the system in sharing is what is seen of it.
pub proof fn an_effect_is_what_is_seen_of_it(effect: Effect)
    ensures
        match effect {
            Effect::Send { to, msg } => effect.deep_view() == (EffectView::Send {
                to,
                msg: msg.deep_view(),
            }),
            Effect::Offer { seq, formats } => effect.deep_view() == (EffectView::Offer {
                seq,
                formats: formats.deep_view(),
            }),
            Effect::Release => effect.deep_view() is Release,
            Effect::Read { seq, format } => effect.deep_view() == (EffectView::Read {
                seq,
                format: format.deep_view(),
            }),
            Effect::Queue { seq, format, result } => effect.deep_view() == (EffectView::Queue {
                seq,
                format: format.deep_view(),
                result: held(result),
            }),
            Effect::Answer { ticket, result } => effect.deep_view() == (EffectView::Answer {
                ticket,
                result: held(result),
            }),
            Effect::Describe { seq, paths } => effect.deep_view() == (EffectView::Describe {
                seq,
                paths: paths.deep_view(),
            }),
            Effect::Unpack { bytes } => effect.deep_view() == (EffectView::Unpack {
                bytes: bytes@,
            }),
            Effect::ReadPiece { to, id, index, offset, place } => effect.deep_view()
                == (EffectView::ReadPiece { to, id, index, offset, place }),
            Effect::MakeFolder { path } => effect.deep_view() == (EffectView::MakeFolder {
                path: path.deep_view(),
            }),
            Effect::MakeFile { path } => effect.deep_view() == (EffectView::MakeFile {
                path: path.deep_view(),
            }),
            Effect::Write { data } => effect.deep_view() == (EffectView::Write { data: data@ }),
            Effect::Finish { path } => effect.deep_view() == (EffectView::Finish {
                path: path.deep_view(),
            }),
            Effect::Remove { path } => effect.deep_view() == (EffectView::Remove {
                path: path.deep_view(),
            }),
            Effect::Refuse { paste, why } => effect.deep_view() == (EffectView::Refuse {
                paste,
                why: why@,
            }),
            Effect::Landed { paste, top_level } => effect.deep_view() == (EffectView::Landed {
                paste,
                top_level: top_level.deep_view(),
            }),
        },
{
}

/// What is to be done is done one after the other, in the order it was decided in.
pub proof fn one_thing_is_done_after_the_other(
    s: SharingView,
    outputs: Seq<exchange::OutputView>,
    output: exchange::OutputView,
    steps: Seq<transfer::OutputView>,
    step: transfer::OutputView,
)
    ensures
        s.apply(Seq::empty()).after == s && s.apply(Seq::empty()).out.len() == 0,
        ({
            let before = s.apply(outputs);
            let next = before.after.apply_one(output);
            let all = s.apply(outputs.push(output));
            all.after == next.after && all.out == before.out + next.out
        }),
        s.settle(Seq::empty()).after == s && s.settle(Seq::empty()).out.len() == 0,
        ({
            let before = s.settle(steps);
            let next = before.after.settle_one(step);
            let all = s.settle(steps.push(step));
            all.after == next.after && all.out == before.out + next.out
        }),
{
    assert(outputs.push(output).drop_last() =~= outputs);
    assert(steps.push(step).drop_last() =~= steps);
}

// --- what is asked of the system --------------------------------------------------------

/// What the daemon is to do is what is seen of it.
pub proof fn what_a_daemon_does_is_what_is_seen_of_it(act: daemon::Act)
    ensures
        match act {
            daemon::Act::Feed(event) => act.deep_view() == daemon::ActView::Feed(event),
            daemon::Act::Settle => act.deep_view() is Settle,
            daemon::Act::Send { to, msg } => act.deep_view() == (daemon::ActView::Send {
                to,
                msg: msg.deep_view(),
            }),
            daemon::Act::LetGo { device, name, why } => act.deep_view() == (daemon::ActView::LetGo {
                device,
                name: name@,
                why: why@,
            }),
            daemon::Act::Welcome { device, generation } => act.deep_view()
                == (daemon::ActView::Welcome { device, generation }),
            daemon::Act::PeerUp(device) => act.deep_view() == daemon::ActView::PeerUp(device),
            daemon::Act::PeerGone(device) => act.deep_view() == daemon::ActView::PeerGone(device),
            daemon::Act::PeerSaid { from, msg } => act.deep_view() == (daemon::ActView::PeerSaid {
                from,
                msg: msg.deep_view(),
            }),
            daemon::Act::Arrange { device, monitors } => act.deep_view()
                == (daemon::ActView::Arrange { device, monitors: monitors.deep_view() }),
            daemon::Act::Swallow(on) => act.deep_view() == daemon::ActView::Swallow(on),
            daemon::Act::Warp { x, y } => act.deep_view() == (daemon::ActView::Warp { x, y }),
            daemon::Act::Reload => act.deep_view() is Reload,
            daemon::Act::WriteStatus => act.deep_view() is WriteStatus,
        },
{
}

/// What the owner of a clipboard is to do is what is seen of it.
pub proof fn what_an_owner_does_is_what_is_seen_of_it(act: owner::Act, outcome: owner::Outcome)
    ensures
        match act {
            owner::Act::Write32 { window, property, kind, values } => act.deep_view()
                == (owner::ActView::Write32 { window, property, kind, values: values@ }),
            owner::Act::Write8 { window, property, kind, data } => act.deep_view()
                == (owner::ActView::Write8 { window, property, kind, data: data@ }),
            owner::Act::Follow { window } => act.deep_view() == (owner::ActView::Follow { window }),
            owner::Act::Tell { request, property } => act.deep_view() == (owner::ActView::Tell {
                request,
                property,
            }),
        },
        match outcome {
            owner::Outcome::Do(acts) => outcome.deep_view() == owner::OutcomeView::Do(
                acts.deep_view(),
            ),
            owner::Outcome::Fetch(format) => outcome.deep_view() == owner::OutcomeView::Fetch(
                format.deep_view(),
            ),
            owner::Outcome::WhoOwns => outcome.deep_view() is WhoOwns,
        },
{
}

/// What is handed to Windows is what is seen of it.
pub proof fn what_windows_is_handed_is_what_is_seen_of_it(
    reading: windows::Reading,
    render: windows::Render,
)
    ensures
        match reading {
            windows::Reading::Done(result) => reading.deep_view() == windows::ReadingView::Done(
                match result {
                    Ok(bytes) => Ok(bytes@),
                    Err(e) => Err(e.deep_view()),
                },
            ),
            windows::Reading::Try(id) => reading.deep_view() == windows::ReadingView::Try(id),
        },
        match render {
            windows::Render::Nothing => render.deep_view() is Nothing,
            windows::Render::Ready { format, data } => render.deep_view()
                == (windows::RenderView::Ready { format: format.deep_view(), data: data@ }),
            windows::Render::Fetch(format) => render.deep_view() == windows::RenderView::Fetch(
                format.deep_view(),
            ),
        },
{
}

/// What went wrong is what is seen of it, and a person is told which of the things
/// it was.
pub proof fn what_went_wrong_is_said(error: ClipboardError, other: Seq<char>)
    ensures
        match error {
            ClipboardError::Busy => error.deep_view() == ClipboardErrorView::Busy,
            ClipboardError::Refused(format) => error.deep_view() == ClipboardErrorView::Refused(
                format.deep_view(),
            ),
            ClipboardError::NothingUsable => error.deep_view() == ClipboardErrorView::NothingUsable,
            ClipboardError::Display(why) => error.deep_view() == ClipboardErrorView::Display(why@),
            ClipboardError::Unsupported(what) => error.deep_view()
                == ClipboardErrorView::Unsupported(what@),
        },
        error_message(ClipboardErrorView::Busy) == "the clipboard is held by something else"@,
        error_message(ClipboardErrorView::Refused(FormatView::Text))
            == "the owning application would not hand over "@ + "Text"@,
        error_message(ClipboardErrorView::Refused(FormatView::Html))
            == "the owning application would not hand over "@ + "Html"@,
        error_message(ClipboardErrorView::Refused(FormatView::Png))
            == "the owning application would not hand over "@ + "Png"@,
        error_message(ClipboardErrorView::Refused(FormatView::Uris))
            == "the owning application would not hand over "@ + "Uris"@,
        error_message(ClipboardErrorView::NothingUsable)
            == "nothing on the clipboard is in a form this can carry"@,
        error_message(ClipboardErrorView::Display(other)) == "display server: "@ + other,
        error_message(ClipboardErrorView::Unsupported(other)) == other
            + " is not available on this platform"@,
{
}

/// What is found on disk is what is seen of it.
pub proof fn what_is_found_is_what_is_seen_of_it(
    found: Found,
    child: Child,
    copied: Copied,
    offered: Offered,
)
    ensures
        match found {
            Found::File { bytes } => found.deep_view() == (FoundView::File { bytes }),
            Found::Folder { children } => found.deep_view() == (FoundView::Folder {
                children: children.deep_view(),
            }),
            Found::Link => found.deep_view() is Link,
            Found::Other => found.deep_view() is Other,
        },
        child.deep_view() == (ChildView { raw: child.raw@, name: child.name@, place: child.place }),
        copied.deep_view() == (CopiedView { name: copied.name.deep_view(), place: copied.place }),
        offered.deep_view() == (OfferedView {
            offer: offered.offer.deep_view(),
            places: offered.places@,
        }),
{
}

} // verus!
