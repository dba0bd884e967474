//! A reader for Qt's `QSettings` INI files, which is the shape Barrier's GUI
//! configuration takes.
//!
//! Qt writes nested structures by flattening them into dotted-with-backslashes
//! keys -- `screens\8\name=WIN-STUDY` -- and percent-escapes characters that
//! would otherwise be significant. Both need undoing to get at the values.

use vstd::prelude::*;
use vstd::std_specs::convert::FromSpecImpl;

use crate::bytes::{hex_byte, hex_pair};
use crate::table::{ascending_keys, put, put_keeps_order, value_of, OrderedMap};
use crate::text::{
    after_prefix, before_last, chars_of, is_word, lines, lines_of, lower, lowered, number,
    number_of, part, split_at_char, split_once, strip_end, strip_start, text_of, trim, trimmed,
};

verus! {

/// The keys of a section and their values, in order of the keys.
pub type SectionView = Seq<(Seq<char>, Seq<char>)>;

/// The sections by name, in order of the names.
pub type SectionsView = Seq<(Seq<char>, SectionView)>;

// --- escapes ----------------------------------------------------------------

/// What two characters after a `%` stand for; less than nothing where they are
/// no number.
pub open spec fn escaped_value(a: char, b: char) -> int {
    if (a as u32) < 128 && (b as u32) < 128 {
        hex_pair(a as u8, b as u8)
    } else {
        -1
    }
}

/// Undo `%XX`. A NUL is Qt's separator for composite keys; it is dropped rather
/// than carried into a section name. What is not an escape stands for itself.
pub open spec fn unescape(s: Seq<char>) -> Seq<char>
    decreases s.len(),
{
    if s.len() == 0 {
        seq![]
    } else if s[0] == '%' && s.len() > 2 && escaped_value(s[1], s[2]) >= 0 {
        let v = escaped_value(s[1], s[2]);
        if v != 0 {
            seq![v as char] + unescape(s.skip(3))
        } else {
            unescape(s.skip(3))
        }
    } else {
        seq![s[0]] + unescape(s.skip(1))
    }
}

fn escaped_byte(a: char, b: char) -> (r: Option<u8>)
    ensures
        match r {
            Some(v) => v == escaped_value(a, b),
            None => escaped_value(a, b) == -1,
        },
{
    if (a as u32) < 128 && (b as u32) < 128 {
        hex_byte(a as u8, b as u8)
    } else {
        None
    }
}

/// Qt escapes characters it cannot write literally as `%XX`.
fn unescaped(s: &Vec<char>) -> (r: Vec<char>)
    ensures
        r@ == unescape(s@),
{
    let mut out: Vec<char> = Vec::new();
    let mut i: usize = 0;
    proof {
        assert(s@.skip(0) =~= s@);
        assert(out@ + unescape(s@) =~= unescape(s@));
    }
    while i < s.len()
        invariant
            i <= s.len(),
            unescape(s@) == out@ + unescape(s@.skip(i as int)),
        decreases s.len() - i,
    {
        let ghost rest = s@.skip(i as int);
        let ghost before = out@;
        proof {
            assert(rest[0] == s@[i as int]);
            assert(rest.skip(1) =~= s@.skip(i + 1));
            if i + 2 < s.len() {
                assert(rest[1] == s@[i + 1]);
                assert(rest[2] == s@[i + 2]);
                assert(rest.skip(3) =~= s@.skip(i + 3));
            }
        }
        if s[i] == '%' && s.len() - i > 2 {
            if let Some(b) = escaped_byte(s[i + 1], s[i + 2]) {
                if b != 0 {
                    out.push(b as char);
                    proof {
                        assert(before + (seq![b as char] + unescape(rest.skip(3)))
                            =~= before.push(b as char) + unescape(rest.skip(3)));
                    }
                }
                i += 3;
                continue ;
            }
        }
        let c: char = s[i];
        out.push(c);
        proof {
            assert(before + (seq![c] + unescape(rest.skip(1))) =~= before.push(c) + unescape(
                rest.skip(1),
            ));
        }
        i += 1;
    }
    proof {
        assert(s@.skip(i as int).len() == 0);
        assert(out@ + unescape(s@.skip(i as int)) =~= out@);
    }
    out
}

/// Without the double quotes around it.
pub open spec fn unquote(s: Seq<char>) -> Seq<char> {
    if s.len() >= 2 && s[0] == '"' && s.last() == '"' {
        unescape(s.subrange(1, s.len() - 1))
    } else {
        unescape(s)
    }
}

fn unquoted(s: &Vec<char>) -> (r: Vec<char>)
    ensures
        r@ == unquote(s@),
{
    if s.len() >= 2 && s[0] == '"' && s[s.len() - 1] == '"' {
        let inner: Vec<char> = part(s, 1, s.len() - 1);
        unescaped(&inner)
    } else {
        unescaped(s)
    }
}

// --- sections ---------------------------------------------------------------

pub open spec fn general() -> Seq<char> {
    "General"@
}

/// What a section holds; one that is not there holds nothing.
pub open spec fn section(s: SectionsView, name: Seq<char>) -> SectionView {
    match value_of(s, name) {
        Some(section) => section,
        None => seq![],
    }
}

pub open spec fn with_section(s: SectionsView, name: Seq<char>) -> SectionsView {
    if value_of(s, name) is Some {
        s
    } else {
        put::<String, SectionView>(s, name, seq![])
    }
}

pub open spec fn with_value(
    s: SectionsView,
    name: Seq<char>,
    key: Seq<char>,
    value: Seq<char>,
) -> SectionsView {
    put::<String, SectionView>(s, name, put::<String, Seq<char>>(section(s, name), key, value))
}

/// How far the reading has come.
pub struct Reading {
    pub sections: SectionsView,
    /// The section that lines belong to now.
    pub current: Seq<char>,
}

/// What one line adds. Blank lines and comments add nothing; `[name]` begins a
/// section; `key=value` belongs to the section begun last.
pub open spec fn read_line(so_far: Reading, raw: Seq<char>) -> Reading {
    let line = trim(raw);
    let inside = match after_prefix(line, "["@) {
        Some(rest) => before_last(rest, ']'),
        None => None,
    };
    if line.len() == 0 || line[0] == '#' || line[0] == ';' {
        so_far
    } else if inside is Some {
        let name = unescape(inside->0);
        Reading { sections: with_section(so_far.sections, name), current: name }
    } else {
        match split_once(line, '=') {
            Some((key, value)) => Reading {
                sections: with_value(
                    so_far.sections,
                    so_far.current,
                    unescape(trim(key)),
                    unquote(trim(value)),
                ),
                ..so_far
            },
            None => so_far,
        }
    }
}

pub open spec fn read_lines(raw: Seq<Seq<char>>) -> Reading
    decreases raw.len(),
{
    if raw.len() == 0 {
        Reading { sections: seq![], current: general() }
    } else {
        read_line(read_lines(raw.drop_last()), raw.last())
    }
}

/// The sections of a settings file. There is always a general one.
pub open spec fn read_settings(text: Seq<char>) -> SectionsView {
    with_section(read_lines(lines(text)).sections, general())
}

/// Sections in order, and each in order itself.
pub open spec fn orderly(s: SectionsView) -> bool {
    &&& ascending_keys::<String, SectionView>(s)
    &&& forall|i: int|
        0 <= i < s.len() ==> ascending_keys::<String, Seq<char>>((#[trigger] s[i]).1)
}

// --- looking things up --------------------------------------------------------

pub open spec fn look_up(s: SectionsView, name: Seq<char>, key: Seq<char>) -> Option<Seq<char>> {
    value_of(section(s, name), key)
}

pub open spec fn look_up_any(s: SectionsView, name: Seq<char>, key: Seq<char>) -> Option<
    Seq<char>,
> {
    if look_up(s, name, key) is Some {
        look_up(s, name, key)
    } else {
        look_up(s, general(), key)
    }
}

/// What a word means as a yes or a no.
pub open spec fn truth(word: Seq<char>) -> Option<bool> {
    let w = lower(word);
    if w == "true"@ || w == "1"@ || w == "yes"@ {
        Some(true)
    } else if w == "false"@ || w == "0"@ || w == "no"@ {
        Some(false)
    } else {
        None
    }
}

pub open spec fn look_up_bool(s: SectionsView, name: Seq<char>, key: Seq<char>) -> Option<bool> {
    match look_up_any(s, name, key) {
        Some(word) => truth(word),
        None => None,
    }
}

pub open spec fn look_up_u32(s: SectionsView, name: Seq<char>, key: Seq<char>) -> Option<int> {
    match look_up_any(s, name, key) {
        Some(word) => number(word, u32::MAX as int),
        None => None,
    }
}

/// One entry of a flattened array: `prefix\<n>\<field>`.
#[derive(Debug, PartialEq, Eq)]
pub struct Item {
    pub index: u32,
    pub field: String,
    pub value: String,
}

#[verifier::ext_equal]
pub struct ItemView {
    pub index: u32,
    pub field: Seq<char>,
    pub value: Seq<char>,
}

impl DeepView for Item {
    type V = ItemView;

    open spec fn deep_view(&self) -> ItemView {
        ItemView { index: self.index, field: self.field@, value: self.value@ }
    }
}

/// The array entry a key and its value are, if they are one.
pub open spec fn item(prefix: Seq<char>, key: Seq<char>, value: Seq<char>) -> Option<ItemView> {
    match after_prefix(key, prefix) {
        Some(rest) => match after_prefix(rest, "\\"@) {
            Some(rest) => match split_once(rest, '\\') {
                Some((index, field)) => match number(index, u32::MAX as int) {
                    Some(n) => Some(ItemView { index: n as u32, field, value }),
                    None => None,
                },
                None => None,
            },
            None => None,
        },
        None => None,
    }
}

/// The entries of an array, in order of their keys.
pub open spec fn items(section: SectionView, prefix: Seq<char>) -> Seq<ItemView>
    decreases section.len(),
{
    if section.len() == 0 {
        seq![]
    } else {
        let before = items(section.drop_last(), prefix);
        match item(prefix, section.last().0, section.last().1) {
            Some(one) => before.push(one),
            None => before,
        }
    }
}

// --- the reader ---------------------------------------------------------------

/// A parsed settings file: section name to key/value pairs. Keys keep their
/// backslash-separated structure so callers can pick out arrays.
#[derive(Debug, Clone, PartialEq, Eq)]
pub struct Ini {
    pub sections: OrderedMap<String, OrderedMap<String, String>>,
}

impl View for Ini {
    type V = SectionsView;

    open spec fn view(&self) -> SectionsView {
        self.sections.entries()
    }
}

impl Default for Ini {
    fn default() -> (r: Ini)
        ensures
            r@ == Seq::<(Seq<char>, SectionView)>::empty(),
    {
        Ini { sections: OrderedMap::new() }
    }
}

impl From<OrderedMap<String, OrderedMap<String, String>>> for Ini {
    fn from(sections: OrderedMap<String, OrderedMap<String, String>>) -> (r: Ini) {
        Ini { sections }
    }
}

impl FromSpecImpl<OrderedMap<String, OrderedMap<String, String>>> for Ini {
    open spec fn obeys_from_spec() -> bool {
        true
    }

    open spec fn from_spec(sections: OrderedMap<String, OrderedMap<String, String>>) -> Ini {
        Ini { sections }
    }
}

impl Ini {
    /// Make sure there is a section of this name.
    fn begin_section(&mut self, name: &Vec<char>)
        requires
            orderly(old(self)@),
        ensures
            final(self)@ == with_section(old(self)@, name@),
            orderly(final(self)@),
    {
        let ghost s = self@;
        let key: String = text_of(name);
        if self.sections.position(&key).is_some() {
            return ;
        }
        let fresh: OrderedMap<String, String> = OrderedMap::new();
        proof {
            assert(fresh.deep_view() =~= seq![]);
            put_stays_orderly(s, name@, seq![]);
        }
        self.sections.insert(key, fresh);
    }

    /// Keep a value in a section.
    fn set(&mut self, name: &Vec<char>, key: &Vec<char>, value: &Vec<char>)
        requires
            orderly(old(self)@),
        ensures
            final(self)@ == with_value(old(self)@, name@, key@, value@),
            orderly(final(self)@),
    {
        let ghost s = self@;
        let owner: String = text_of(name);
        let mut kept: OrderedMap<String, String> = OrderedMap::new();
        match self.sections.position(&owner) {
            Some(i) => {
                let ghost before = self.sections.rows.deep_view();
                let row: (String, OrderedMap<String, String>) = self.sections.rows.remove(i);
                proof {
                    assert(row.deep_view() == before[i as int]);
                    assert(self.sections.rows.deep_view() =~= before.remove(i as int));
                }
                kept = row.1;
                proof {
                    assert(kept.entries() == section(s, name@));
                    assert(ascending_keys::<String, Seq<char>>(s[i as int].1));
                }
                kept.insert(text_of(key), text_of(value));
                proof {
                    put_keeps_order::<String, Seq<char>>(section(s, name@), key@, value@);
                    put_stays_orderly(s, name@, kept.entries());
                    crate::table::ascending_keys_are_keyed::<String, SectionView>(s);
                    crate::table::stored_at(s, i as int, name@, kept.entries());
                }
                let ghost kv = kept.entries();
                self.sections.rows.insert(i, (owner, kept));
                proof {
                    assert(self.sections.rows.deep_view() =~= s.update(i as int, (name@, kv)));
                }
            },
            None => {
                proof {
                    assert(section(s, name@) =~= seq![]);
                    assert(kept.entries() =~= seq![]);
                }
                kept.insert(text_of(key), text_of(value));
                proof {
                    put_stays_orderly(s, name@, kept.entries());
                }
                self.sections.insert(owner, kept);
            },
        }
    }

    pub fn parse(text: &str) -> (r: Ini)
        ensures
            r@ == read_settings(text@),
            orderly(r@),
    {
        let chars: Vec<char> = chars_of(text);
        let raw: Vec<Vec<char>> = lines_of(&chars);
        let ghost all = lines(text@);
        let mut ini: Ini = Ini::default();
        let mut current: Vec<char> = chars_of("General");
        let mut i: usize = 0;
        proof {
            assert(all.take(0) =~= Seq::<Seq<char>>::empty());
        }
        while i < raw.len()
            invariant
                i <= raw.len(),
                raw.deep_view() == all,
                orderly(ini@),
                ini@ == read_lines(all.take(i as int)).sections,
                current@ == read_lines(all.take(i as int)).current,
            decreases raw.len() - i,
        {
            proof {
                assert(all.take(i + 1).drop_last() =~= all.take(i as int));
                assert(all.take(i + 1).last() == all[i as int]);
                assert(raw.deep_view()[i as int] == raw@[i as int].deep_view());
                assert(raw@[i as int].deep_view() =~= raw@[i as int]@);
            }
            let line: Vec<char> = trimmed(&raw[i]);
            i += 1;
            if line.len() == 0 || line[0] == '#' || line[0] == ';' {
                continue ;
            }
            let inside: Option<Vec<char>> = match strip_start(&line, "[") {
                Some(rest) => {
                    proof {
                        assert(rest.deep_view() =~= rest@);
                    }
                    strip_end(&rest, ']')
                },
                None => None,
            };
            if let Some(name) = inside {
                proof {
                    assert(name.deep_view() =~= name@);
                }
                current = unescaped(&name);
                ini.begin_section(&current);
                continue ;
            }
            if let Some((key, value)) = split_at_char(&line, '=') {
                let k: Vec<char> = trimmed(&key);
                let v: Vec<char> = trimmed(&value);
                let k: Vec<char> = unescaped(&k);
                let v: Vec<char> = unquoted(&v);
                ini.set(&current, &k, &v);
            }
        }
        proof {
            assert(all.take(i as int) =~= all);
        }
        let name: Vec<char> = chars_of("General");
        ini.begin_section(&name);
        ini
    }

    pub fn get(&self, section: &str, key: &str) -> (r: Option<&str>)
        ensures
            r.deep_view() == look_up(self@, section@, key@),
    {
        let section: String = section.to_owned();
        let key: String = key.to_owned();
        match self.sections.get(&section) {
            Some(kept) => match kept.get(&key) {
                Some(value) => Some(value.as_str()),
                None => None,
            },
            None => None,
        }
    }

    /// Look a key up in `section`, falling back to `General`. Barrier spreads
    /// related settings across both.
    pub fn get_any(&self, section: &str, key: &str) -> (r: Option<&str>)
        ensures
            r.deep_view() == look_up_any(self@, section@, key@),
    {
        match self.get(section, key) {
            Some(value) => Some(value),
            None => self.get("General", key),
        }
    }

    pub fn get_bool(&self, section: &str, key: &str) -> (r: Option<bool>)
        ensures
            r == look_up_bool(self@, section@, key@),
    {
        match self.get_any(section, key) {
            Some(value) => {
                let chars: Vec<char> = chars_of(value);
                let word: Vec<char> = lowered(&chars);
                if is_word(&word, "true") || is_word(&word, "1") || is_word(&word, "yes") {
                    Some(true)
                } else if is_word(&word, "false") || is_word(&word, "0") || is_word(&word, "no") {
                    Some(false)
                } else {
                    None
                }
            },
            None => None,
        }
    }

    pub fn get_u32(&self, section: &str, key: &str) -> (r: Option<u32>)
        ensures
            match r {
                Some(n) => look_up_u32(self@, section@, key@) == Some(n as int),
                None => look_up_u32(self@, section@, key@) is None,
            },
    {
        match self.get_any(section, key) {
            Some(value) => {
                let chars: Vec<char> = chars_of(value);
                match number_of(&chars, u32::MAX as u64) {
                    Some(n) => Some(n as u32),
                    None => None,
                }
            },
            None => None,
        }
    }

    /// Entries of a Qt-style array: `prefix\<n>\<field>`.
    ///
    /// Returns each with its index, so a caller can rebuild the structure
    /// without knowing its shape in advance.
    pub fn array(&self, section: &str, prefix: &str) -> (r: Vec<Item>)
        ensures
            r.deep_view() == items(crate::ini::section(self@, section@), prefix@),
    {
        let name: String = section.to_owned();
        let mut r: Vec<Item> = Vec::new();
        proof {
            assert(r.deep_view() =~= Seq::<ItemView>::empty());
        }
        let kept: &OrderedMap<String, String> = match self.sections.get(&name) {
            Some(kept) => kept,
            None => {
                return r;
            },
        };
        let ghost all = kept.entries();
        let mut i: usize = 0;
        proof {
            assert(all.take(0) =~= Seq::<(Seq<char>, Seq<char>)>::empty());
        }
        while i < kept.rows.len()
            invariant
                i <= kept.rows.len(),
                all == kept.entries(),
                r.deep_view() == items(all.take(i as int), prefix@),
            decreases kept.rows.len() - i,
        {
            proof {
                assert(all.take(i + 1).drop_last() =~= all.take(i as int));
                assert(all.take(i + 1).last() == all[i as int]);
                assert(all[i as int] == kept.rows@[i as int].deep_view());
            }
            if let Some(one) = item_of(prefix, &kept.rows[i].0, &kept.rows[i].1) {
                let ghost earlier = r.deep_view();
                let ghost added = one.deep_view();
                r.push(one);
                assert(r.deep_view() =~= earlier.push(added));
            }
            i += 1;
        }
        proof {
            assert(all.take(i as int) =~= all);
        }
        r
    }
}

fn item_of(prefix: &str, key: &String, value: &String) -> (r: Option<Item>)
    ensures
        r.deep_view() == item(prefix@, key@, value@),
{
    let chars: Vec<char> = chars_of(key.as_str());
    let rest: Vec<char> = match strip_start(&chars, prefix) {
        Some(rest) => rest,
        None => {
            return None;
        },
    };
    proof {
        assert(rest.deep_view() =~= rest@);
    }
    let rest: Vec<char> = match strip_start(&rest, "\\") {
        Some(rest) => rest,
        None => {
            return None;
        },
    };
    proof {
        assert(rest.deep_view() =~= rest@);
    }
    match split_at_char(&rest, '\\') {
        Some((index, field)) => match number_of(&index, u32::MAX as u64) {
            Some(n) => Some(
                Item { index: n as u32, field: text_of(&field), value: value.clone() },
            ),
            None => None,
        },
        None => None,
    }
}

proof fn put_stays_orderly(s: SectionsView, name: Seq<char>, section: SectionView)
    requires
        orderly(s),
        ascending_keys::<String, Seq<char>>(section),
    ensures
        orderly(put::<String, SectionView>(s, name, section)),
{
    put_keeps_order::<String, SectionView>(s, name, section);
    crate::table::ascending_keys_are_keyed::<String, SectionView>(s);
    crate::table::value_of_finds(s, name);
    let r = put::<String, SectionView>(s, name, section);
    if value_of(s, name) is Some {
        crate::table::stored_stays_keyed(s, name, section);
        assert forall|i: int| 0 <= i < r.len() implies ascending_keys::<String, Seq<char>>(
            (#[trigger] r[i]).1,
        ) by {
            assert(r[i] == (name, section) || s.contains(r[i]));
        }
    } else {
        crate::table::leading_keys_split::<String, SectionView>(s, name);
        let p = crate::table::leading_keys::<String, SectionView>(s, name) as int;
        assert forall|i: int| 0 <= i < r.len() implies ascending_keys::<String, Seq<char>>(
            (#[trigger] r[i]).1,
        ) by {
            if i < p {
                assert(r[i] == s[i]);
            } else if i > p {
                assert(r[i] == s[i - 1]);
            }
        }
    }
}

} // verus!
