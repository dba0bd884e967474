//! Machines, their screens, and positions on the desktop they share.

use vstd::prelude::*;

use crate::order::{
    dictionary, dictionary_chains, dictionary_is_strict, dictionary_is_total, octets,
    octets_determine_the_bytes, Alike, Ranked,
};

verus! {

/// Which machine: the public key it is known by.
#[derive(Debug, Clone, Copy, PartialEq, Eq, PartialOrd, Ord, Hash)]
pub struct DeviceId {
    pub bytes: [u8; 32],
}

impl DeviceId {
    pub fn from_bytes(bytes: [u8; 32]) -> (id: DeviceId)
        ensures
            id.bytes == bytes,
    {
        DeviceId { bytes }
    }
}

impl DeepView for DeviceId {
    type V = DeviceId;

    open spec fn deep_view(&self) -> DeviceId {
        *self
    }
}

impl Alike for DeviceId {
    fn same(&self, other: &DeviceId) -> (r: bool) {
        let mut i: usize = 0;
        while i < 32
            invariant
                i <= 32,
                forall|j: int| 0 <= j < i ==> self.bytes@[j] == other.bytes@[j],
            decreases 32 - i,
        {
            if self.bytes[i] != other.bytes[i] {
                return false;
            }
            i += 1;
        }
        proof {
            assert(self.bytes@ =~= other.bytes@);
            assert(self.bytes =~= other.bytes);
        }
        true
    }
}

impl Ranked for DeviceId {
    open spec fn before(a: DeviceId, b: DeviceId) -> bool {
        dictionary(octets(a.bytes@), octets(b.bytes@))
    }

    proof fn nothing_precedes_itself(a: DeviceId) {
        dictionary_is_strict(octets(a.bytes@));
    }

    proof fn precedence_chains(a: DeviceId, b: DeviceId, c: DeviceId) {
        dictionary_chains(octets(a.bytes@), octets(b.bytes@), octets(c.bytes@));
    }

    proof fn distinct_values_are_ordered(a: DeviceId, b: DeviceId) {
        dictionary_is_total(octets(a.bytes@), octets(b.bytes@));
        if octets(a.bytes@) == octets(b.bytes@) {
            octets_determine_the_bytes(a.bytes@, b.bytes@);
            assert(a.bytes =~= b.bytes);
        }
    }

    fn precedes(&self, other: &DeviceId) -> (r: bool) {
        let ghost a = octets(self.bytes@);
        let ghost b = octets(other.bytes@);
        let mut i: usize = 0;
        proof {
            assert(a.skip(0) =~= a);
            assert(b.skip(0) =~= b);
        }
        while i < 32
            invariant
                i <= 32,
                a == octets(self.bytes@),
                b == octets(other.bytes@),
                a.len() == 32,
                b.len() == 32,
                dictionary(a, b) == dictionary(a.skip(i as int), b.skip(i as int)),
            decreases 32 - i,
        {
            proof {
                assert(a.skip(i as int)[0] == self.bytes@[i as int] as int);
                assert(b.skip(i as int)[0] == other.bytes@[i as int] as int);
                assert(a.skip(i as int).drop_first() =~= a.skip(i + 1));
                assert(b.skip(i as int).drop_first() =~= b.skip(i + 1));
            }
            if self.bytes[i] != other.bytes[i] {
                return self.bytes[i] < other.bytes[i];
            }
            i += 1;
        }
        false
    }
}

// --- positions ------------------------------------------------------------

#[derive(Debug, Clone, Copy, PartialEq, Eq, Structural)]
pub struct Point {
    pub x: i32,
    pub y: i32,
}

impl Point {
    pub fn new(x: i32, y: i32) -> (p: Point)
        ensures
            p == (Point { x, y }),
    {
        Point { x, y }
    }
}

#[derive(Debug, Clone, Copy, PartialEq, Eq, Structural)]
pub struct Rect {
    pub x: i32,
    pub y: i32,
    pub w: i32,
    pub h: i32,
}

impl Rect {
    pub fn new(x: i32, y: i32, w: i32, h: i32) -> (r: Rect)
        ensures
            r == (Rect { x, y, w, h }),
    {
        Rect { x, y, w, h }
    }

    /// A rectangle with something in it, all of it at positions that exist.
    pub open spec fn proper(self) -> bool {
        &&& 1 <= self.w
        &&& 1 <= self.h
        &&& self.x + self.w - 1 <= i32::MAX
        &&& self.y + self.h - 1 <= i32::MAX
    }

    /// Whether a position lies inside: the right and lower edges do not.
    pub open spec fn has(self, p: Point) -> bool {
        self.x <= p.x < self.x + self.w && self.y <= p.y < self.y + self.h
    }

    /// The nearest position inside.
    pub open spec fn nearest(self, p: Point) -> Point {
        Point {
            x: if p.x < self.x {
                self.x
            } else if p.x > self.x + self.w - 1 {
                (self.x + self.w - 1) as i32
            } else {
                p.x
            },
            y: if p.y < self.y {
                self.y
            } else if p.y > self.y + self.h - 1 {
                (self.y + self.h - 1) as i32
            } else {
                p.y
            },
        }
    }

    pub open spec fn middle(self) -> Point {
        Point { x: (self.x + self.w / 2) as i32, y: (self.y + self.h / 2) as i32 }
    }

    /// The corner it is measured from.
    pub fn origin(&self) -> (p: Point)
        ensures
            p == (Point { x: self.x, y: self.y }),
    {
        Point { x: self.x, y: self.y }
    }

    pub fn contains(&self, p: Point) -> (r: bool)
        ensures
            r == self.has(p),
    {
        let (x, y, w, h): (i64, i64, i64, i64) = (
            self.x as i64,
            self.y as i64,
            self.w as i64,
            self.h as i64,
        );
        let (px, py): (i64, i64) = (p.x as i64, p.y as i64);
        x <= px && px < x + w && y <= py && py < y + h
    }

    pub fn clamp_point(&self, p: Point) -> (r: Point)
        requires
            self.proper(),
        ensures
            r == self.nearest(p),
            self.has(r),
    {
        let right: i32 = self.x + (self.w - 1);
        let bottom: i32 = self.y + (self.h - 1);
        Point {
            x: if p.x < self.x {
                self.x
            } else if p.x > right {
                right
            } else {
                p.x
            },
            y: if p.y < self.y {
                self.y
            } else if p.y > bottom {
                bottom
            } else {
                p.y
            },
        }
    }

    pub fn centre(&self) -> (r: Point)
        requires
            self.proper(),
        ensures
            r == self.middle(),
            self.has(r),
    {
        Point { x: self.x + self.w / 2, y: self.y + self.h / 2 }
    }
}

// --- screens --------------------------------------------------------------

/// A screen, as the machine that has it describes it.
#[derive(Debug, Clone, PartialEq, Eq)]
pub struct Monitor {
    /// The machine's own stable name for it.
    pub id: String,
    /// Where it sits among that machine's screens.
    pub local: Rect,
    pub primary: bool,
}

#[verifier::ext_equal]
pub struct MonitorView {
    pub id: Seq<char>,
    pub local: Rect,
    pub primary: bool,
}

impl DeepView for Monitor {
    type V = MonitorView;

    open spec fn deep_view(&self) -> MonitorView {
        MonitorView { id: self.id@, local: self.local, primary: self.primary }
    }
}

/// A screen in its place on the desktop.
#[derive(Debug, Clone, Copy, PartialEq, Eq)]
pub struct Cell {
    pub device: DeviceId,
    /// Where it sits among its own machine's screens.
    pub local: Rect,
    /// Where it sits on the desktop.
    pub global: Rect,
}

impl Cell {
    pub open spec fn proper(self) -> bool {
        self.local.proper() && self.global.proper()
    }
}

/// A position on one machine, in its own coordinates.
#[derive(Debug, Clone, Copy, PartialEq, Eq)]
pub struct Located {
    pub device: DeviceId,
    pub local: Point,
}

/// Where moving the cursor would take it.
#[derive(Debug, Clone, Copy, PartialEq, Eq)]
pub struct Motion {
    pub global: Point,
    pub located: Located,
    /// Whether it could not go where it was sent.
    pub adjusted: bool,
}

/// A position on the desktop that is on some screen.
#[derive(Debug, Clone, Copy, PartialEq, Eq)]
pub struct Settled {
    pub global: Point,
    pub located: Located,
}

} // verus!
