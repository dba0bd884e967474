//! What the running daemon is connected to.
//!
//! The report carries the time it was made because a file outlives the process
//! that wrote it. A daemon that was killed leaves its last word behind, and a
//! reader that took that at face value would show machines as connected long
//! after everything had stopped. Anything older than [`Status::FRESH_FOR`] says
//! only what used to be true.
//!
//! It also carries where every screen sits. The daemon is the only thing that
//! knows where a machine the configuration does not mention has been put, and
//! a window that could not show that machine would have no way to offer to
//! move it.

use vstd::prelude::*;

use crate::config::rect_of;
use crate::control::Role;
use crate::layout::{DeviceId, Rect};
use crate::text::{chars_of, same_chars};

verus! {

/// How a machine stands at the moment.
#[derive(Debug, Clone, Copy, PartialEq, Eq, Structural)]
pub enum MachineState {
    /// Connected, and able to act on what it is sent.
    Connected,
    /// Connected, but temporarily unable to put input on its screen. On
    /// Windows this is a prompt or the lock screen holding the desktop.
    Suspended,
    /// Known and configured, but not here.
    Away,
}

/// One screen, where the daemon has it.
#[derive(Debug, Clone, PartialEq, Eq)]
pub struct PlacedMonitor {
    /// The owning machine's own name for the output.
    pub id: String,
    /// Position and size on the global desktop, as `[x, y, w, h]`.
    pub global: [i32; 4],
    /// What the monitor calls itself, where the machine knows.
    pub label: Option<String>,
    pub primary: bool,
}

#[verifier::ext_equal]
pub struct PlacedView {
    pub id: Seq<char>,
    pub global: Seq<i32>,
    pub label: Option<Seq<char>>,
    pub primary: bool,
}

impl DeepView for PlacedMonitor {
    type V = PlacedView;

    open spec fn deep_view(&self) -> PlacedView {
        PlacedView {
            id: self.id@,
            global: self.global@,
            label: self.label.deep_view(),
            primary: self.primary,
        }
    }
}

impl PlacedMonitor {
    pub fn rect(&self) -> (r: Rect)
        ensures
            r == rect_of(self.global@),
    {
        Rect::new(self.global[0], self.global[1], self.global[2], self.global[3])
    }
}

#[derive(Debug, Clone, PartialEq, Eq)]
pub struct Machine {
    pub name: String,
    pub device: Option<DeviceId>,
    pub state: MachineState,
    /// Whether the cursor is on this machine right now.
    pub active: bool,
    /// Its screens, where the daemon has arranged them. Includes the daemon's
    /// own machine, so a reader sees the same desk the cursor moves over.
    pub monitor: Vec<PlacedMonitor>,
}

#[verifier::ext_equal]
pub struct MachineView {
    pub name: Seq<char>,
    pub device: Option<DeviceId>,
    pub state: MachineState,
    pub active: bool,
    pub monitor: Seq<PlacedView>,
}

impl DeepView for Machine {
    type V = MachineView;

    open spec fn deep_view(&self) -> MachineView {
        MachineView {
            name: self.name@,
            device: self.device,
            state: self.state,
            active: self.active,
            monitor: self.monitor.deep_view(),
        }
    }
}

impl Machine {
    /// A machine with the cursor elsewhere and no screens yet.
    pub fn new(name: &str, device: Option<DeviceId>, state: MachineState) -> (r: Machine)
        ensures
            r.deep_view() == (MachineView {
                name: name@,
                device,
                state,
                active: false,
                monitor: seq![],
            }),
    {
        let monitor: Vec<PlacedMonitor> = Vec::new();
        assert(monitor.deep_view() =~= seq![]);
        Machine { name: name.to_owned(), device, state, active: false, monitor }
    }
}

#[derive(Debug, Clone, PartialEq, Eq)]
pub struct Status {
    /// Seconds since the epoch, when this was made.
    pub updated: u64,
    pub role: Role,
    /// What the daemon calls the machine it is running on.
    pub name: String,
    /// The daemon's process, for anyone who needs to find it.
    pub pid: Option<u32>,
    pub machines: Vec<Machine>,
}

/// How long ago something was, by a clock that may have gone back.
pub open spec fn since(now: u64, then: u64) -> int {
    if now >= then {
        now - then
    } else {
        0
    }
}

impl Status {
    /// How many seconds a report is worth believing.
    ///
    /// Comfortably longer than the refresh interval, so an ordinarily busy
    /// daemon is never mistaken for a stopped one, and short enough that a
    /// stopped one stops being believed while somebody is still looking.
    pub const FRESH_FOR: u64 = 15;

    /// How often, in seconds, a daemon with nothing to report should write
    /// anyway, so its report stays believed.
    pub const REFRESH_EVERY: u64 = 5;

    /// A report made now, by this process.
    pub fn new(role: Role, name: &str, machines: Vec<Machine>, now: u64, pid: u32) -> (r: Status)
        ensures
            r.updated == now,
            r.role == role,
            r.name@ == name@,
            r.pid == Some(pid),
            r.machines == machines,
    {
        Status { updated: now, role, name: name.to_owned(), pid: Some(pid), machines }
    }

    /// Was this made recently enough to describe the present?
    pub fn is_current(&self, now: u64) -> (r: bool)
        ensures
            r == (since(now, self.updated) <= Status::FRESH_FOR),
    {
        self.age(now) <= Status::FRESH_FOR
    }

    /// How many seconds ago it was made.
    pub fn age(&self, now: u64) -> (r: u64)
        ensures
            r == since(now, self.updated),
    {
        if now >= self.updated {
            now - self.updated
        } else {
            0
        }
    }

    /// The machine the cursor is on, if the report says: the first that is
    /// marked.
    pub fn active(&self) -> (r: Option<&Machine>)
        ensures
            match r {
                Some(m) => exists|i: int|
                    0 <= i < self.machines@.len() && *m == #[trigger] self.machines@[i] && m.active
                        && forall|j: int| 0 <= j < i ==> !(#[trigger] self.machines@[j]).active,
                None => forall|i: int|
                    0 <= i < self.machines@.len() ==> !(#[trigger] self.machines@[i]).active,
            },
    {
        let mut i: usize = 0;
        while i < self.machines.len()
            invariant
                i <= self.machines@.len(),
                forall|j: int| 0 <= j < i ==> !(#[trigger] self.machines@[j]).active,
            decreases self.machines@.len() - i,
        {
            if self.machines[i].active {
                return Some(&self.machines[i]);
            }
            i += 1;
        }
        None
    }

    /// The first machine of this name.
    pub fn machine(&self, name: &str) -> (r: Option<&Machine>)
        ensures
            match r {
                Some(m) => exists|i: int|
                    0 <= i < self.machines@.len() && *m == #[trigger] self.machines@[i] && m.name@
                        == name@ && forall|j: int|
                        0 <= j < i ==> (#[trigger] self.machines@[j]).name@ != name@,
                None => forall|i: int|
                    0 <= i < self.machines@.len() ==> (#[trigger] self.machines@[i]).name@ != name@,
            },
    {
        let wanted: Vec<char> = chars_of(name);
        let mut i: usize = 0;
        while i < self.machines.len()
            invariant
                i <= self.machines@.len(),
                wanted@ == name@,
                forall|j: int| 0 <= j < i ==> (#[trigger] self.machines@[j]).name@ != name@,
            decreases self.machines@.len() - i,
        {
            let called: Vec<char> = chars_of(self.machines[i].name.as_str());
            if same_chars(&called, &wanted) {
                return Some(&self.machines[i]);
            }
            i += 1;
        }
        None
    }
}

/// A daemon that refreshes its report as often as it should is always
/// believed, even one refresh late.
pub proof fn a_refreshed_report_is_believed(status: Status, now: u64)
    requires
        since(now, status.updated) <= 2 * Status::REFRESH_EVERY,
    ensures
        since(now, status.updated) <= Status::FRESH_FOR,
{
}

} // verus!
