//! What a person asks of the command, and what it decides for itself.

use vstd::prelude::*;

use crate::config::DEFAULT_PORT;
use crate::text::{
    add_text, after_prefix, chars_of, decimal, decimal_of, is_word, lower, lowered, number, number_of,
    same_chars, split_at_char, split_once, text_of, trim, trimmed,
};

verus! {

/// Whether a host comes with a port: what follows its one colon is one.
pub open spec fn has_port(host: Seq<char>) -> bool {
    match split_once(host, ':') {
        Some((name, port)) => split_once(port, ':') is None && number(port, 65535) is Some,
        None => false,
    }
}

/// A host with the usual port, unless it comes with one.
pub fn with_default_port(host: &str) -> (r: String)
    ensures
        r@ == (if has_port(host@) {
            host@
        } else {
            host@ + ":"@ + decimal(DEFAULT_PORT as nat)
        }),
{
    let chars: Vec<char> = chars_of(host);
    let given: bool = match split_at_char(&chars, ':') {
        Some((name, port)) => {
            assert(name.deep_view() =~= name@);
            assert(port.deep_view() =~= port@);
            let again: bool = split_at_char(&port, ':').is_some();
            !again && number_of(&port, 65535).is_some()
        },
        None => false,
    };
    if given {
        return text_of(&chars);
    }
    let mut r: Vec<char> = chars;
    add_text(&mut r, ":");
    let mut port: Vec<char> = decimal_of(DEFAULT_PORT as u64);
    r.append(&mut port);
    text_of(&r)
}

/// Whether an answer means yes. Anything else means no.
pub fn is_yes(answer: &str) -> (r: bool)
    ensures
        r == (lower(trim(answer@)) == "y"@ || lower(trim(answer@)) == "yes"@),
{
    let word: Vec<char> = lowered(&trimmed(&chars_of(answer)));
    is_word(&word, "y") || is_word(&word, "yes")
}

/// A machine this one has been paired with.
#[derive(Debug, PartialEq, Eq)]
pub struct Known {
    pub name: String,
    /// Its identity, in hexadecimal.
    pub hex: String,
}

/// Whether a machine is meant: by its name, or by how its identity begins.
pub open spec fn is_meant(known: Known, wanted: Seq<char>) -> bool {
    known.name@ == wanted || after_prefix(known.hex@, wanted) is Some
}

/// The first machine that is meant.
pub fn find_known(known: &Vec<Known>, wanted: &str) -> (r: Option<usize>)
    ensures
        match r {
            Some(i) => i < known@.len() && is_meant(known@[i as int], wanted@) && forall|j: int|
                0 <= j < i ==> !is_meant(#[trigger] known@[j], wanted@),
            None => forall|j: int|
                0 <= j < known@.len() ==> !is_meant(#[trigger] known@[j], wanted@),
        },
{
    let name: Vec<char> = chars_of(wanted);
    let mut i: usize = 0;
    while i < known.len()
        invariant
            i <= known.len(),
            name@ == wanted@,
            forall|j: int| 0 <= j < i ==> !is_meant(#[trigger] known@[j], wanted@),
        decreases known.len() - i,
    {
        let called: Vec<char> = chars_of(known[i].name.as_str());
        let hex: Vec<char> = chars_of(known[i].hex.as_str());
        if same_chars(&called, &name) || crate::text::strip_start(&hex, wanted).is_some() {
            return Some(i);
        }
        i += 1;
    }
    None
}

/// Which of the machines that are known is the server: the only one; or the one
/// of this name; or the first. None, where none is known.
pub fn choose_server(names: &Vec<String>, name: &str) -> (r: Option<usize>)
    ensures
        match r {
            None => names@.len() == 0,
            Some(i) => i < names@.len() && {
                ||| names@.len() == 1
                ||| names@[i as int]@ == name@ && forall|j: int|
                    0 <= j < i ==> (#[trigger] names@[j])@ != name@
                ||| i == 0 && forall|j: int|
                    0 <= j < names@.len() ==> (#[trigger] names@[j])@ != name@
            },
        },
{
    if names.len() == 0 {
        return None;
    }
    if names.len() == 1 {
        return Some(0);
    }
    let wanted: Vec<char> = chars_of(name);
    let mut i: usize = 0;
    while i < names.len()
        invariant
            i <= names.len(),
            wanted@ == name@,
            forall|j: int| 0 <= j < i ==> (#[trigger] names@[j])@ != name@,
        decreases names.len() - i,
    {
        let called: Vec<char> = chars_of(names[i].as_str());
        if same_chars(&called, &wanted) {
            return Some(i);
        }
        i += 1;
    }
    Some(0)
}

/// The shortest wait before connecting again, in milliseconds.
pub const SHORTEST_WAIT: u64 = 250;

/// The longest.
pub const LONGEST_WAIT: u64 = 10_000;

/// How long to wait before connecting again.
///
/// With a ceiling: a machine that is merely asleep should be picked up promptly
/// when it wakes, without hammering the network meanwhile.
#[derive(Debug, Clone, Copy, PartialEq, Eq, Structural)]
pub struct Backoff {
    /// In milliseconds.
    pub wait: u64,
}

pub open spec fn doubled(wait: u64) -> u64 {
    if 2 * wait < LONGEST_WAIT {
        (2 * wait) as u64
    } else {
        LONGEST_WAIT
    }
}

impl Backoff {
    pub fn new() -> (r: Backoff)
        ensures
            r.wait == SHORTEST_WAIT,
    {
        Backoff { wait: SHORTEST_WAIT }
    }

    /// A session is over. One that ended well starts the waiting afresh; after
    /// each, the next wait is twice as long, up to the ceiling.
    pub fn after(&mut self, ended_well: bool) -> (wait: u64)
        ensures
            wait == (if ended_well {
                SHORTEST_WAIT
            } else {
                old(self).wait
            }),
            final(self).wait == doubled(wait),
    {
        if ended_well {
            self.wait = SHORTEST_WAIT;
        }
        let wait: u64 = self.wait;
        self.wait = if wait < LONGEST_WAIT / 2 {
            2 * wait
        } else {
            LONGEST_WAIT
        };
        wait
    }
}

/// However often connecting fails, the wait stays between the shortest and the
/// longest.
pub proof fn the_wait_stays_within_bounds(wait: u64)
    requires
        SHORTEST_WAIT <= wait <= LONGEST_WAIT,
    ensures
        SHORTEST_WAIT <= doubled(wait) <= LONGEST_WAIT,
        wait <= doubled(wait),
{
}

} // verus!
