//! The first thing two machines say once the link is encrypted.
//!
//! The handshake underneath proves *which* machine is at the other end. It says
//! nothing about which build, and two builds that disagree about the wire
//! format would otherwise proceed to misunderstand each other -- the symptoms
//! of which look like anything at all except a version mismatch. So each side
//! states its protocol version first, and a mismatch is refused with a message
//! that says so.

use vstd::prelude::*;

use crate::control::{
    ClientControl, ClientControlView, Hello, HelloView, Reject, RejectView, Role, ServerControl,
    ServerControlView,
};
use crate::layout::DeviceId;
use crate::text::{add_text, chars_of, decimal, decimal_of, text_of};

verus! {

/// How many seconds to wait for the other side to introduce itself.
pub const PATIENCE: u64 = 5;

/// How this machine introduces itself.
pub fn hello(proto: u32, device: DeviceId, name: &str, role: Role) -> (r: Hello)
    ensures
        r.deep_view() == (HelloView { proto, device, name: name@, role }),
{
    Hello { proto, device, name: name.to_owned(), role }
}

/// Something, two versions, and what to do about it.
pub open spec fn mismatch(who: Seq<char>, theirs: u32, ours: u32) -> Seq<char> {
    who + " speaks protocol version "@ + decimal(theirs as nat) + ", this build speaks "@ + decimal(
        ours as nat,
    ) + "; update the older one"@
}

fn mismatch_text(who: &str, theirs: u32, ours: u32) -> (r: String)
    ensures
        r@ == mismatch(who@, theirs, ours),
{
    let mut r: Vec<char> = chars_of(who);
    add_text(&mut r, " speaks protocol version ");
    let mut number: Vec<char> = decimal_of(theirs as u64);
    r.append(&mut number);
    add_text(&mut r, ", this build speaks ");
    let mut number: Vec<char> = decimal_of(ours as u64);
    r.append(&mut number);
    add_text(&mut r, "; update the older one");
    text_of(&r)
}

/// What a client makes of the server's first words.
pub open spec fn server_introduced(answer: ServerControlView, ours: u32) -> Result<
    HelloView,
    Seq<char>,
> {
    match answer {
        ServerControlView::Hello(theirs) => if theirs.proto == ours {
            Ok(theirs)
        } else {
            Err(mismatch("the server"@, theirs.proto, ours))
        },
        ServerControlView::Rejected { reason } => match reason {
            RejectView::ProtocolVersion { theirs, ours } => Err(
                mismatch("the server refused: it"@, theirs, ours),
            ),
            RejectView::Other(why) => Err("the server refused: "@ + why),
        },
        _ => Err(
            "the server did not introduce itself, so it is running an older build; update it"@,
        ),
    }
}

/// As the client: what to make of the server's answer to this machine's
/// introduction. `ours` is the version this build speaks.
pub fn judge_server(answer: ServerControl, ours: u32) -> (r: Result<Hello, String>)
    ensures
        match r {
            Ok(theirs) => server_introduced(answer.deep_view(), ours) == Ok::<HelloView, Seq<char>>(
                theirs.deep_view(),
            ),
            Err(why) => server_introduced(answer.deep_view(), ours) == Err::<HelloView, Seq<char>>(
                why@,
            ),
        },
{
    match answer {
        ServerControl::Hello(theirs) => {
            if theirs.proto == ours {
                Ok(theirs)
            } else {
                Err(mismatch_text("the server", theirs.proto, ours))
            }
        },
        ServerControl::Rejected { reason } => match reason {
            Reject::ProtocolVersion { theirs, ours } => {
                Err(mismatch_text("the server refused: it", theirs, ours))
            },
            Reject::Other(why) => {
                let mut r: Vec<char> = chars_of("the server refused: ");
                add_text(&mut r, why.as_str());
                Err(text_of(&r))
            },
        },
        _ => Err(
            "the server did not introduce itself, so it is running an older build; update it".to_owned(),
        ),
    }
}

/// What a server does about a machine's first words.
#[derive(Debug, PartialEq, Eq)]
pub enum Verdict {
    /// Introduce this machine in turn.
    Welcome(Hello),
    /// Tell the machine so, and close the link.
    TurnAway { reply: ServerControl, why: String },
    /// Close the link.
    HangUp(String),
}

#[verifier::ext_equal]
pub enum VerdictView {
    Welcome(HelloView),
    TurnAway { reply: ServerControlView, why: Seq<char> },
    HangUp(Seq<char>),
}

impl DeepView for Verdict {
    type V = VerdictView;

    open spec fn deep_view(&self) -> VerdictView {
        match self {
            Verdict::Welcome(theirs) => VerdictView::Welcome(theirs.deep_view()),
            Verdict::TurnAway { reply, why } => VerdictView::TurnAway {
                reply: reply.deep_view(),
                why: why@,
            },
            Verdict::HangUp(why) => VerdictView::HangUp(why@),
        }
    }
}

pub open spec fn client_introduced(first: ClientControlView, ours: u32) -> VerdictView {
    match first {
        ClientControlView::Hello(theirs) => if theirs.proto == ours {
            VerdictView::Welcome(theirs)
        } else {
            VerdictView::TurnAway {
                reply: ServerControlView::Rejected {
                    reason: RejectView::ProtocolVersion { theirs: theirs.proto, ours },
                },
                why: mismatch(theirs.name, theirs.proto, ours),
            }
        },
        _ => VerdictView::HangUp(
            "the machine did not introduce itself, so it is running an older build; update it"@,
        ),
    }
}

/// As the server: what to do about a machine's introduction. `ours` is the
/// version this build speaks.
pub fn judge_client(first: ClientControl, ours: u32) -> (r: Verdict)
    ensures
        r.deep_view() == client_introduced(first.deep_view(), ours),
{
    match first {
        ClientControl::Hello(theirs) => {
            if theirs.proto == ours {
                return Verdict::Welcome(theirs);
            }
            let reason: Reject = Reject::ProtocolVersion { theirs: theirs.proto, ours };
            let why: String = mismatch_text(theirs.name.as_str(), theirs.proto, ours);
            Verdict::TurnAway { reply: ServerControl::Rejected { reason }, why }
        },
        _ => Verdict::HangUp(
            "the machine did not introduce itself, so it is running an older build; update it".to_owned(),
        ),
    }
}

/// Two builds get on exactly where they speak the same version, and each end
/// that turns away says both versions.
pub proof fn a_mismatch_is_refused_at_both_ends(theirs: HelloView, ours: u32)
    ensures
        server_introduced(ServerControlView::Hello(theirs), ours) is Ok <==> theirs.proto == ours,
        client_introduced(ClientControlView::Hello(theirs), ours) is Welcome <==> theirs.proto
            == ours,
{
}

} // verus!
