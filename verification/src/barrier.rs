//! Reading an existing Barrier installation.
//!
//! Two files matter. The GUI keeps its settings in a Qt `QSettings` INI file
//! (`~/.config/Debauchee/Barrier.conf`, or the equivalent registry key on
//! Windows), including a flattened grid of screen names. A server may also
//! have a text configuration in Barrier's own format, which is the only place
//! partial-edge links can be expressed.
//!
//! What is deliberately *not* carried over is trust. Barrier's stored
//! certificate fingerprints were accepted on first sight with nothing tying
//! them to a machine, so importing them would import that assumption too.
//! Names come across; pairing happens again.

use vstd::prelude::*;

use crate::ini::{
    items, look_up_any, look_up_bool, look_up_u32, read_settings, section, Ini, Item, ItemView,
    SectionsView,
};
use crate::order::Alike;
use crate::table::{listed, put, value_of, OrderedMap};
use crate::text::{
    add_text, after_prefix, before_last, chars_of, find_char, find_last, first_at, is_word,
    last_at, lines, lines_of, lower, lowered, number, number_of, part, split_at_char, split_once,
    strip_end, strip_start, text_of, trim, trimmed,
};

verus! {

/// Which way a link goes, in Barrier's terms.
#[derive(Debug, Clone, Copy, PartialEq, Eq, PartialOrd, Ord)]
pub enum Edge {
    Left,
    Right,
    Up,
    Down,
}

pub open spec fn edge_named(s: Seq<char>) -> Option<Edge> {
    if s == "left"@ {
        Some(Edge::Left)
    } else if s == "right"@ {
        Some(Edge::Right)
    } else if s == "up"@ {
        Some(Edge::Up)
    } else if s == "down"@ {
        Some(Edge::Down)
    } else {
        None
    }
}

impl Edge {
    fn parse(s: &Vec<char>) -> (r: Option<Edge>)
        ensures
            r == edge_named(s@),
    {
        if is_word(s, "left") {
            Some(Edge::Left)
        } else if is_word(s, "right") {
            Some(Edge::Right)
        } else if is_word(s, "up") {
            Some(Edge::Up)
        } else if is_word(s, "down") {
            Some(Edge::Down)
        } else {
            None
        }
    }
}

/// One entry from a text config's `links` section.
///
/// Barrier's format allows a percentage interval on each side, which the GUI
/// cannot express and therefore silently discards whenever it rewrites the
/// file. Both intervals are captured here so an import can tell whether the
/// user had set one up.
#[derive(Debug, Clone, PartialEq, Eq)]
pub struct Link {
    pub from: String,
    pub edge: Edge,
    pub from_range: Option<(u32, u32)>,
    pub to: String,
    pub to_range: Option<(u32, u32)>,
}

#[verifier::ext_equal]
pub struct LinkView {
    pub from: Seq<char>,
    pub edge: Edge,
    pub from_range: Option<(u32, u32)>,
    pub to: Seq<char>,
    pub to_range: Option<(u32, u32)>,
}

impl DeepView for Link {
    type V = LinkView;

    open spec fn deep_view(&self) -> LinkView {
        LinkView {
            from: self.from@,
            edge: self.edge,
            from_range: self.from_range,
            to: self.to@,
            to_range: self.to_range,
        }
    }
}

/// A parsed `barrier.conf`.
#[derive(Debug, Clone, PartialEq, Eq)]
pub struct ServerConfig {
    pub screens: Vec<String>,
    pub links: Vec<Link>,
    pub aliases: OrderedMap<String, Vec<String>>,
    pub options: OrderedMap<String, String>,
}

#[verifier::ext_equal]
pub struct ServerConfigView {
    pub screens: Seq<Seq<char>>,
    pub links: Seq<LinkView>,
    /// The other names of each screen, in order of the screens' names.
    pub aliases: Seq<(Seq<char>, Seq<Seq<char>>)>,
    pub options: Seq<(Seq<char>, Seq<char>)>,
}

impl DeepView for ServerConfig {
    type V = ServerConfigView;

    open spec fn deep_view(&self) -> ServerConfigView {
        ServerConfigView {
            screens: self.screens.deep_view(),
            links: self.links.deep_view(),
            aliases: self.aliases.entries(),
            options: self.options.entries(),
        }
    }
}

impl Default for ServerConfig {
    fn default() -> (r: ServerConfig)
        ensures
            r.deep_view() == (ServerConfigView {
                screens: seq![],
                links: seq![],
                aliases: seq![],
                options: seq![],
            }),
            r.wf(),
    {
        let r: ServerConfig = ServerConfig {
            screens: Vec::new(),
            links: Vec::new(),
            aliases: OrderedMap::new(),
            options: OrderedMap::new(),
        };
        assert(r.screens.deep_view() =~= seq![]);
        assert(r.links.deep_view() =~= seq![]);
        r
    }
}

// --- the text configuration ---------------------------------------------------

/// The two numbers of an interval `1,2`.
pub open spec fn interval(inner: Seq<char>) -> Option<(u32, u32)> {
    match split_once(inner, ',') {
        Some((a, b)) => match (
            number(trim(a), u32::MAX as int),
            number(trim(b), u32::MAX as int),
        ) {
            (Some(low), Some(high)) => Some((low as u32, high as u32)),
            _ => None,
        },
        None => None,
    }
}

/// Split `name(1,2)` into its name and interval. Without a pair of brackets,
/// in their order, it is all name.
pub open spec fn name_and_interval(s: Seq<char>) -> (Seq<char>, Option<(u32, u32)>) {
    let t = trim(s);
    let open = first_at(t, '(');
    let close = last_at(t, ')');
    if open < close {
        (trim(t.take(open)), interval(t.subrange(open + 1, close)))
    } else {
        (t, None)
    }
}

fn interval_of(inner: &Vec<char>) -> (r: Option<(u32, u32)>)
    ensures
        r == interval(inner@),
{
    match split_at_char(inner, ',') {
        Some((a, b)) => {
            let a: Vec<char> = trimmed(&a);
            let b: Vec<char> = trimmed(&b);
            match (number_of(&a, u32::MAX as u64), number_of(&b, u32::MAX as u64)) {
                (Some(low), Some(high)) => Some((low as u32, high as u32)),
                _ => None,
            }
        },
        None => None,
    }
}

/// Split `name(1,2)` into its name and interval.
fn split_interval(s: &Vec<char>) -> (r: (Vec<char>, Option<(u32, u32)>))
    ensures
        (r.0@, r.1) == name_and_interval(s@),
{
    let t: Vec<char> = trimmed(s);
    let open: usize = find_char(&t, '(');
    if let Some(close) = find_last(&t, ')') {
        if open < close {
            let before: Vec<char> = part(&t, 0, open);
            let inner: Vec<char> = part(&t, open + 1, close);
            proof {
                assert(before@ =~= t@.take(open as int));
            }
            return (trimmed(&before), interval_of(&inner));
        }
    }
    (t, None)
}

/// How far the reading has come.
pub struct Progress {
    pub cfg: ServerConfigView,
    pub section: Seq<char>,
    /// The name a `name:` line most recently introduced, which the indented
    /// lines beneath it belong to.
    pub subject: Option<Seq<char>>,
}

/// The other names gathered for a screen so far.
pub open spec fn names_for(
    aliases: Seq<(Seq<char>, Seq<Seq<char>>)>,
    name: Seq<char>,
) -> Seq<Seq<char>> {
    match value_of(aliases, name) {
        Some(names) => names,
        None => seq![],
    }
}

/// What a line inside a section adds.
pub open spec fn read_entry(so_far: Progress, line: Seq<char>) -> Progress {
    let titled = before_last(line, ':');
    let cfg = so_far.cfg;
    if so_far.section == "screens"@ {
        // Per-screen options are Barrier-specific tweaks with no equivalent
        // here; they are left alone.
        match titled {
            Some(title) => {
                let name = trim(title);
                Progress {
                    cfg: ServerConfigView {
                        screens: if name.len() > 0 && !cfg.screens.contains(name) {
                            cfg.screens.push(name)
                        } else {
                            cfg.screens
                        },
                        ..cfg
                    },
                    subject: Some(name),
                    ..so_far
                }
            },
            None => so_far,
        }
    } else if so_far.section == "links"@ {
        match (titled, so_far.subject, split_once(line, '=')) {
            (Some(title), _, _) => Progress { subject: Some(trim(title)), ..so_far },
            (None, Some(from), Some((lhs, rhs))) => {
                let (edge, from_range) = name_and_interval(lhs);
                let (to, to_range) = name_and_interval(rhs);
                match edge_named(lower(edge)) {
                    Some(edge) => Progress {
                        cfg: ServerConfigView {
                            links: cfg.links.push(
                                LinkView { from, edge, from_range, to, to_range },
                            ),
                            ..cfg
                        },
                        ..so_far
                    },
                    None => so_far,
                }
            },
            _ => so_far,
        }
    } else if so_far.section == "aliases"@ {
        match (titled, so_far.subject) {
            (Some(title), _) => Progress { subject: Some(trim(title)), ..so_far },
            (None, Some(name)) => Progress {
                cfg: ServerConfigView {
                    aliases: put::<String, Seq<Seq<char>>>(
                        cfg.aliases,
                        name,
                        names_for(cfg.aliases, name).push(line),
                    ),
                    ..cfg
                },
                ..so_far
            },
            (None, None) => so_far,
        }
    } else if so_far.section == "options"@ {
        match split_once(line, '=') {
            Some((key, value)) => Progress {
                cfg: ServerConfigView {
                    options: put::<String, Seq<char>>(cfg.options, trim(key), trim(value)),
                    ..cfg
                },
                ..so_far
            },
            None => so_far,
        }
    } else {
        so_far
    }
}

/// A line up to the `#` that begins a comment.
pub open spec fn uncommented(raw: Seq<char>) -> Seq<char> {
    match split_once(raw, '#') {
        Some((before, _)) => before,
        None => raw,
    }
}

/// What one line adds.
pub open spec fn read_line(so_far: Progress, raw: Seq<char>) -> Progress {
    read_bare(so_far, trim(uncommented(raw)))
}

/// What a line adds, without its comment and the space around it. `section:` and
/// `end` enclose the entries of a section.
pub open spec fn read_bare(so_far: Progress, line: Seq<char>) -> Progress {
    if line.len() == 0 {
        so_far
    } else if after_prefix(line, "section:"@) is Some {
        Progress {
            section: lower(trim(after_prefix(line, "section:"@)->0)),
            subject: None,
            ..so_far
        }
    } else if lower(line) == "end"@ {
        Progress { section: seq![], subject: None, ..so_far }
    } else {
        read_entry(so_far, line)
    }
}

/// Before anything is read.
pub open spec fn nothing_read() -> Progress {
    Progress {
        cfg: ServerConfigView { screens: seq![], links: seq![], aliases: seq![], options: seq![] },
        section: seq![],
        subject: None,
    }
}

pub open spec fn read_lines(raw: Seq<Seq<char>>) -> Progress
    decreases raw.len(),
{
    if raw.len() == 0 {
        nothing_read()
    } else {
        read_line(read_lines(raw.drop_last()), raw.last())
    }
}

/// What a text configuration says.
pub open spec fn read_config(text: Seq<char>) -> ServerConfigView {
    read_lines(lines(text)).cfg
}

/// A reading under way.
struct Reader {
    cfg: ServerConfig,
    section: Vec<char>,
    subject: Option<Vec<char>>,
}

impl Reader {
    spec fn progress(&self) -> Progress {
        Progress {
            cfg: self.cfg.deep_view(),
            section: self.section@,
            subject: match self.subject {
                Some(name) => Some(name@),
                None => None,
            },
        }
    }

    spec fn wf(&self) -> bool {
        self.cfg.wf()
    }

    fn screens_line(&mut self, line: &Vec<char>)
        requires
            old(self).wf(),
            old(self).section@ == "screens"@,
        ensures
            final(self).wf(),
            final(self).progress() == read_entry(old(self).progress(), line@),
    {
        if let Some(title) = strip_end(line, ':') {
            proof {
                assert(title.deep_view() =~= title@);
            }
            let name: Vec<char> = trimmed(&title);
            let text: String = text_of(&name);
            if name.len() > 0 && !listed(&self.cfg.screens, &text) {
                let ghost earlier = self.cfg.screens.deep_view();
                self.cfg.screens.push(text);
                proof {
                    assert(self.cfg.screens.deep_view() =~= earlier.push(name@));
                }
            }
            self.subject = Some(name);
        }
    }

    fn links_line(&mut self, line: &Vec<char>)
        requires
            old(self).wf(),
            old(self).section@ == "links"@,
        ensures
            final(self).wf(),
            final(self).progress() == read_entry(old(self).progress(), line@),
    {
        proof {
            distinct_sections();
        }
        if let Some(title) = strip_end(line, ':') {
            proof {
                assert(title.deep_view() =~= title@);
            }
            self.subject = Some(trimmed(&title));
            return ;
        }
        let from: String = match &self.subject {
            Some(name) => text_of(name),
            None => {
                return ;
            },
        };
        if let Some((lhs, rhs)) = split_at_char(line, '=') {
            let (side, from_range): (Vec<char>, Option<(u32, u32)>) = split_interval(&lhs);
            let (to, to_range): (Vec<char>, Option<(u32, u32)>) = split_interval(&rhs);
            let side: Vec<char> = lowered(&side);
            if let Some(edge) = Edge::parse(&side) {
                let ghost earlier = self.cfg.links.deep_view();
                let link: Link = Link { from, edge, from_range, to: text_of(&to), to_range };
                let ghost added = link.deep_view();
                self.cfg.links.push(link);
                proof {
                    assert(self.cfg.links.deep_view() =~= earlier.push(added));
                }
            }
        }
    }

    fn aliases_line(&mut self, line: &Vec<char>)
        requires
            old(self).wf(),
            old(self).section@ == "aliases"@,
        ensures
            final(self).wf(),
            final(self).progress() == read_entry(old(self).progress(), line@),
    {
        proof {
            distinct_sections();
        }
        if let Some(title) = strip_end(line, ':') {
            proof {
                assert(title.deep_view() =~= title@);
            }
            self.subject = Some(trimmed(&title));
            return ;
        }
        let name: String = match &self.subject {
            Some(name) => text_of(name),
            None => {
                return ;
            },
        };
        let mut names: Vec<String> = match self.cfg.aliases.get(&name) {
            Some(names) => {
                let copy: Vec<String> = names.clone();
                proof {
                    assert(copy.deep_view() =~= names.deep_view());
                }
                copy
            },
            None => {
                let fresh: Vec<String> = Vec::new();
                proof {
                    assert(fresh.deep_view() =~= seq![]);
                }
                fresh
            },
        };
        let ghost earlier = names.deep_view();
        names.push(text_of(line));
        proof {
            assert(names.deep_view() =~= earlier.push(line@));
        }
        self.cfg.aliases.insert(name, names);
    }

    fn options_line(&mut self, line: &Vec<char>)
        requires
            old(self).wf(),
            old(self).section@ == "options"@,
        ensures
            final(self).wf(),
            final(self).progress() == read_entry(old(self).progress(), line@),
    {
        proof {
            distinct_sections();
        }
        if let Some((key, value)) = split_at_char(line, '=') {
            let key: Vec<char> = trimmed(&key);
            let value: Vec<char> = trimmed(&value);
            self.cfg.options.insert(text_of(&key), text_of(&value));
        }
    }

    fn line(&mut self, raw: &Vec<char>)
        requires
            old(self).wf(),
        ensures
            final(self).wf(),
            final(self).progress() == read_line(old(self).progress(), raw@),
    {
        let line: Vec<char> = match split_at_char(raw, '#') {
            Some((before, _)) => trimmed(&before),
            None => trimmed(raw),
        };
        if line.len() == 0 {
            return ;
        }
        if let Some(name) = strip_start(&line, "section:") {
            proof {
                assert(name.deep_view() =~= name@);
            }
            let name: Vec<char> = trimmed(&name);
            self.section = lowered(&name);
            self.subject = None;
            return ;
        }
        let small: Vec<char> = lowered(&line);
        if is_word(&small, "end") {
            self.section = Vec::new();
            self.subject = None;
            proof {
                assert(self.section@ =~= seq![]);
            }
            return ;
        }
        if is_word(&self.section, "screens") {
            self.screens_line(&line);
        } else if is_word(&self.section, "links") {
            self.links_line(&line);
        } else if is_word(&self.section, "aliases") {
            self.aliases_line(&line);
        } else if is_word(&self.section, "options") {
            self.options_line(&line);
        }
    }
}

proof fn distinct_sections()
    ensures
        "screens"@ != "links"@,
        "screens"@ != "aliases"@,
        "screens"@ != "options"@,
        "links"@ != "aliases"@,
        "links"@ != "options"@,
        "aliases"@ != "options"@,
{
    reveal_strlit("screens");
    reveal_strlit("links");
    reveal_strlit("aliases");
    reveal_strlit("options");
    assert("screens"@.len() == 7 && "links"@.len() == 5 && "aliases"@.len() == 7
        && "options"@.len() == 7);
    assert("screens"@[0] != "aliases"@[0]);
    assert("screens"@[0] != "options"@[0]);
    assert("aliases"@[0] != "options"@[0]);
}

impl ServerConfig {
    pub open spec fn wf(&self) -> bool {
        self.aliases.wf() && self.options.wf()
    }

    /// Parse Barrier's text configuration format.
    pub fn parse(text: &str) -> (r: ServerConfig)
        ensures
            r.deep_view() == read_config(text@),
            r.wf(),
    {
        let chars: Vec<char> = chars_of(text);
        let raw: Vec<Vec<char>> = lines_of(&chars);
        let ghost all = lines(text@);
        let mut reader: Reader = Reader {
            cfg: ServerConfig::default(),
            section: Vec::new(),
            subject: None,
        };
        let mut i: usize = 0;
        proof {
            assert(all.take(0) =~= Seq::<Seq<char>>::empty());
            assert(reader.cfg.screens.deep_view() =~= seq![]);
            assert(reader.cfg.links.deep_view() =~= seq![]);
            assert(reader.section@ =~= seq![]);
        }
        while i < raw.len()
            invariant
                i <= raw.len(),
                raw.deep_view() == all,
                reader.wf(),
                reader.progress() == read_lines(all.take(i as int)),
            decreases raw.len() - i,
        {
            proof {
                assert(all.take(i + 1).drop_last() =~= all.take(i as int));
                assert(all.take(i + 1).last() == all[i as int]);
                assert(raw.deep_view()[i as int] == raw@[i as int].deep_view());
                assert(raw@[i as int].deep_view() =~= raw@[i as int]@);
            }
            reader.line(&raw[i]);
            i += 1;
        }
        proof {
            assert(all.take(i as int) =~= all);
        }
        reader.cfg
    }
}

// --- everything worth keeping ---------------------------------------------------

/// A screen as Barrier's GUI grid holds it.
#[derive(Debug, Clone, PartialEq, Eq)]
pub struct GridScreen {
    pub name: String,
    /// Cell in the GUI's grid. Barrier gives each machine exactly one cell,
    /// which is the limitation that makes multi-monitor arrangements awkward.
    pub column: u32,
    pub row: u32,
}

#[verifier::ext_equal]
pub struct GridView {
    pub name: Seq<char>,
    pub column: u32,
    pub row: u32,
}

impl DeepView for GridScreen {
    type V = GridView;

    open spec fn deep_view(&self) -> GridView {
        GridView { name: self.name@, column: self.column, row: self.row }
    }
}

/// Everything worth keeping from a Barrier installation.
#[derive(Debug, Clone, PartialEq)]
pub struct Import {
    /// This machine's screen name.
    pub screen_name: Option<String>,
    /// True when this machine was configured as the server.
    pub is_server: bool,
    pub server_host: Option<String>,
    pub port: Option<u16>,
    pub switch_delay_ms: Option<u32>,
    pub switch_double_tap_ms: Option<u32>,
    pub clipboard: Option<bool>,
    pub clipboard_limit: Option<u64>,
    pub drag_drop: Option<bool>,
    pub grid: Vec<GridScreen>,
    pub grid_columns: u32,
    pub grid_rows: u32,
    /// Settings that were found but intentionally not carried across, each
    /// with the reason. Surfaced to the user rather than dropped in silence.
    pub notes: Vec<String>,
}

#[verifier::ext_equal]
pub struct ImportView {
    pub screen_name: Option<Seq<char>>,
    pub is_server: bool,
    pub server_host: Option<Seq<char>>,
    pub port: Option<u16>,
    pub switch_delay_ms: Option<u32>,
    pub switch_double_tap_ms: Option<u32>,
    pub clipboard: Option<bool>,
    pub clipboard_limit: Option<u64>,
    pub drag_drop: Option<bool>,
    pub grid: Seq<GridView>,
    pub grid_columns: u32,
    pub grid_rows: u32,
    pub notes: Seq<Seq<char>>,
}

impl DeepView for Import {
    type V = ImportView;

    open spec fn deep_view(&self) -> ImportView {
        ImportView {
            screen_name: self.screen_name.deep_view(),
            is_server: self.is_server,
            server_host: self.server_host.deep_view(),
            port: self.port,
            switch_delay_ms: self.switch_delay_ms,
            switch_double_tap_ms: self.switch_double_tap_ms,
            clipboard: self.clipboard,
            clipboard_limit: self.clipboard_limit,
            drag_drop: self.drag_drop,
            grid: self.grid.deep_view(),
            grid_columns: self.grid_columns,
            grid_rows: self.grid_rows,
            notes: self.notes.deep_view(),
        }
    }
}

impl Default for Import {
    fn default() -> (r: Import)
        ensures
            r.deep_view() == (ImportView {
                screen_name: None,
                is_server: false,
                server_host: None,
                port: None,
                switch_delay_ms: None,
                switch_double_tap_ms: None,
                clipboard: None,
                clipboard_limit: None,
                drag_drop: None,
                grid: seq![],
                grid_columns: 0,
                grid_rows: 0,
                notes: seq![],
            }),
    {
        let r: Import = Import {
            screen_name: None,
            is_server: false,
            server_host: None,
            port: None,
            switch_delay_ms: None,
            switch_double_tap_ms: None,
            clipboard: None,
            clipboard_limit: None,
            drag_drop: None,
            grid: Vec::new(),
            grid_columns: 0,
            grid_rows: 0,
            notes: Vec::new(),
        };
        assert(r.grid.deep_view() =~= seq![]);
        assert(r.notes.deep_view() =~= seq![]);
        r
    }
}

/// What the user is told was left behind.
pub open spec fn unchecked_clients_note() -> Seq<char> {
    "Barrier had TLS on but was not checking client certificates, so any host that could reach the port could connect. Devices are paired explicitly here."@
}

pub open spec fn every_interface_note() -> Seq<char> {
    "Barrier was listening on every interface. Set network.listen to the addresses you actually use."@
}

pub open spec fn overwritten_note() -> Seq<char> {
    "The GUI was managing the screen layout, which means any hand-edited barrier.conf was being overwritten."@
}

pub open spec fn fingerprints_note() -> Seq<char> {
    "Stored TLS fingerprints were not imported: Barrier trusted them on first sight. Each machine is paired again."@
}

pub open spec fn partial_edges_note() -> Seq<char> {
    "The text config used partial-edge links to work around one-rectangle-per-machine. Monitors are placed individually here, so those are no longer needed."@
}

pub open spec fn unknown_option_note(option: Seq<char>, value: Seq<char>) -> Seq<char> {
    "Barrier option `"@ + option + " = "@ + value + "` has no equivalent here."@
}

pub open spec fn filled(s: Option<Seq<char>>) -> Option<Seq<char>> {
    match s {
        Some(text) => if text.len() > 0 {
            Some(text)
        } else {
            None
        },
        None => None,
    }
}

pub open spec fn as_u32(n: Option<int>) -> Option<u32> {
    match n {
        Some(v) => Some(v as u32),
        None => None,
    }
}

/// The named screens of the flattened grid, in order of their indices. Only
/// entries with a name are real.
pub open spec fn named_screens(entries: Seq<ItemView>) -> Seq<(u32, Seq<char>)>
    decreases entries.len(),
{
    if entries.len() == 0 {
        seq![]
    } else {
        let before = named_screens(entries.drop_last());
        let e = entries.last();
        if e.field == "name"@ && e.value.len() > 0 {
            put::<u32, Seq<char>>(before, e.index, e.value)
        } else {
            before
        }
    }
}

/// Where a screen sits in the grid. Qt's array indices are one-based.
pub open spec fn grid_cell(columns: u32, index: u32, name: Seq<char>) -> GridView {
    let zero: int = if index > 0 {
        index - 1
    } else {
        0
    };
    if columns > 0 {
        GridView {
            name,
            column: (zero % columns as int) as u32,
            row: (zero / columns as int) as u32,
        }
    } else {
        GridView { name, column: 0, row: 0 }
    }
}

/// A note, where it applies.
pub open spec fn when(condition: bool, note: Seq<char>) -> Seq<Seq<char>> {
    if condition {
        seq![note]
    } else {
        seq![]
    }
}

/// What the GUI's settings come to.
pub open spec fn imported(s: SectionsView) -> ImportView {
    let g = "General"@;
    let c = "internalConfig"@;
    let columns = as_u32(look_up_u32(s, c, "numColumns"@)).unwrap_or(0);
    ImportView {
        screen_name: filled(look_up_any(s, g, "screenName"@)),
        is_server: look_up_bool(s, g, "groupServerChecked"@) == Some(true),
        server_host: filled(look_up_any(s, g, "serverHostname"@)),
        port: match look_up_u32(s, g, "port"@) {
            Some(p) => if p <= u16::MAX {
                Some(p as u16)
            } else {
                None
            },
            None => None,
        },
        // Switch timings only apply when their enabling flag is set.
        switch_delay_ms: if look_up_bool(s, c, "hasSwitchDelay"@) == Some(true) {
            as_u32(look_up_u32(s, c, "switchDelay"@))
        } else {
            None
        },
        switch_double_tap_ms: if look_up_bool(s, c, "hasSwitchDoubleTap"@) == Some(true) {
            as_u32(look_up_u32(s, c, "switchDoubleTap"@))
        } else {
            None
        },
        clipboard: look_up_bool(s, c, "clipboardSharing"@),
        clipboard_limit: match look_up_u32(s, c, "clipboardSharingSize"@) {
            Some(limit) => Some(limit as u64),
            None => None,
        },
        drag_drop: look_up_bool(s, c, "enableDragAndDrop"@),
        grid: named_screens(items(section(s, c), "screens"@)).map_values(
            |e: (u32, Seq<char>)| grid_cell(columns, e.0, e.1),
        ),
        grid_columns: columns,
        grid_rows: as_u32(look_up_u32(s, c, "numRows"@)).unwrap_or(0),
        notes: when(
            look_up_bool(s, g, "cryptoEnabled"@) == Some(true) && look_up_bool(
                s,
                g,
                "requireClientCertificate"@,
            ) != Some(true),
            unchecked_clients_note(),
        ) + when(filled(look_up_any(s, g, "interface"@)) is None, every_interface_note()) + when(
            look_up_bool(s, g, "useInternalConfig"@) == Some(true),
            overwritten_note(),
        ) + seq![fingerprints_note()],
    }
}

/// The grid with a screen in it.
pub open spec fn with_screen(grid: Seq<GridView>, name: Seq<char>) -> Seq<GridView> {
    if exists|i: int| 0 <= i < grid.len() && (#[trigger] grid[i]).name == name {
        grid
    } else {
        grid.push(GridView { name, column: 0, row: 0 })
    }
}

pub open spec fn with_screens(grid: Seq<GridView>, names: Seq<Seq<char>>) -> Seq<GridView>
    decreases names.len(),
{
    if names.len() == 0 {
        grid
    } else {
        with_screen(with_screens(grid, names.drop_last()), names.last())
    }
}

pub open spec fn partial(link: LinkView) -> bool {
    link.from_range is Some || link.to_range is Some
}

/// What one option of the text configuration changes.
pub open spec fn with_option(i: ImportView, option: Seq<char>, value: Seq<char>) -> ImportView {
    if option == "switchDelay"@ {
        ImportView { switch_delay_ms: as_u32(number(value, u32::MAX as int)), ..i }
    } else if option == "switchDoubleTap"@ {
        ImportView { switch_double_tap_ms: as_u32(number(value, u32::MAX as int)), ..i }
    } else if option == "clipboardSharing"@ {
        ImportView { clipboard: Some(value == "true"@), ..i }
    } else if option == "screenSaverSync"@ || option == "relativeMouseMoves"@ || option
        == "win32KeepForeground"@ {
        i
    } else {
        ImportView { notes: i.notes.push(unknown_option_note(option, value)), ..i }
    }
}

pub open spec fn with_options(i: ImportView, options: Seq<(Seq<char>, Seq<char>)>) -> ImportView
    decreases options.len(),
{
    if options.len() == 0 {
        i
    } else {
        with_option(with_options(i, options.drop_last()), options.last().0, options.last().1)
    }
}

/// The settings with a server's text configuration folded in.
pub open spec fn merged(i: ImportView, cfg: ServerConfigView) -> ImportView {
    let any_partial = exists|k: int| 0 <= k < cfg.links.len() && partial(#[trigger] cfg.links[k]);
    with_options(
        ImportView {
            grid: with_screens(i.grid, cfg.screens),
            notes: i.notes + when(any_partial, partial_edges_note()),
            ..i
        },
        cfg.options,
    )
}

fn copied(s: Option<&str>) -> (r: Option<String>)
    ensures
        r.deep_view() == filled(s.deep_view()),
{
    match s {
        Some(text) => if text.is_empty() {
            None
        } else {
            Some(text.to_owned())
        },
        None => None,
    }
}

fn is_set(flag: Option<bool>) -> (r: bool)
    ensures
        r == (flag == Some(true)),
{
    match flag {
        Some(on) => on,
        None => false,
    }
}

fn add_note(notes: &mut Vec<String>, note: &str)
    ensures
        final(notes).deep_view() == old(notes).deep_view().push(note@),
{
    let ghost earlier = notes.deep_view();
    notes.push(note.to_owned());
    assert(notes.deep_view() =~= earlier.push(note@));
}

/// The grid of screens that the settings describe.
fn grid_of(entries: &Vec<Item>, columns: u32) -> (r: Vec<GridScreen>)
    ensures
        r.deep_view() == named_screens(entries.deep_view()).map_values(
            |e: (u32, Seq<char>)| grid_cell(columns, e.0, e.1),
        ),
{
    let ghost all = entries.deep_view();
    let mut named: OrderedMap<u32, String> = OrderedMap::new();
    let mut i: usize = 0;
    proof {
        assert(all.take(0) =~= Seq::<ItemView>::empty());
    }
    while i < entries.len()
        invariant
            i <= entries.len(),
            all == entries.deep_view(),
            named.wf(),
            named.entries() == named_screens(all.take(i as int)),
        decreases entries.len() - i,
    {
        let e: &Item = &entries[i];
        proof {
            assert(all.take(i + 1).drop_last() =~= all.take(i as int));
            assert(all.take(i + 1).last() == e.deep_view());
        }
        let field: Vec<char> = chars_of(e.field.as_str());
        if is_word(&field, "name") && !e.value.as_str().is_empty() {
            named.insert(e.index, e.value.clone());
        }
        i += 1;
    }
    proof {
        assert(all.take(i as int) =~= all);
    }
    let ghost cells = named.entries();
    let mut grid: Vec<GridScreen> = Vec::new();
    let mut k: usize = 0;
    proof {
        assert(grid.deep_view() =~= cells.take(0).map_values(
            |e: (u32, Seq<char>)| grid_cell(columns, e.0, e.1),
        ));
    }
    while k < named.rows.len()
        invariant
            k <= named.rows.len(),
            cells == named.entries(),
            grid.deep_view() =~= cells.take(k as int).map_values(
                |e: (u32, Seq<char>)| grid_cell(columns, e.0, e.1),
            ),
        decreases named.rows.len() - k,
    {
        let index: u32 = named.rows[k].0;
        let name: String = named.rows[k].1.clone();
        let zero: u32 = if index > 0 { index - 1 } else { 0 };
        let cell: GridScreen = if columns > 0 {
            GridScreen { name, column: zero % columns, row: zero / columns }
        } else {
            GridScreen { name, column: 0, row: 0 }
        };
        let ghost earlier = grid.deep_view();
        let ghost added = cell.deep_view();
        grid.push(cell);
        proof {
            assert(grid.deep_view() =~= earlier.push(added));
            assert(cells[k as int] == named.rows@[k as int].deep_view());
            assert(added == grid_cell(columns, cells[k as int].0, cells[k as int].1));
        }
        k += 1;
    }
    proof {
        assert(cells.take(k as int) =~= cells);
    }
    grid
}

impl Import {
    /// Read the GUI's settings file.
    pub fn from_qt_settings(text: &str) -> (r: Import)
        ensures
            r.deep_view() == imported(read_settings(text@)),
    {
        let ini: Ini = Ini::parse(text);
        let ghost s = ini@;
        let columns: u32 = match ini.get_u32("internalConfig", "numColumns") {
            Some(n) => n,
            None => 0,
        };
        let rows: u32 = match ini.get_u32("internalConfig", "numRows") {
            Some(n) => n,
            None => 0,
        };
        let port: Option<u16> = match ini.get_u32("General", "port") {
            Some(p) => if p <= u16::MAX as u32 {
                Some(p as u16)
            } else {
                None
            },
            None => None,
        };
        let clipboard_limit: Option<u64> = match ini.get_u32(
            "internalConfig",
            "clipboardSharingSize",
        ) {
            Some(limit) => Some(limit as u64),
            None => None,
        };
        // Switch timings only apply when their enabling flag is set.
        let switch_delay_ms: Option<u32> = if is_set(
            ini.get_bool("internalConfig", "hasSwitchDelay"),
        ) {
            ini.get_u32("internalConfig", "switchDelay")
        } else {
            None
        };
        let switch_double_tap_ms: Option<u32> = if is_set(
            ini.get_bool("internalConfig", "hasSwitchDoubleTap"),
        ) {
            ini.get_u32("internalConfig", "switchDoubleTap")
        } else {
            None
        };
        let entries: Vec<Item> = ini.array("internalConfig", "screens");
        let grid: Vec<GridScreen> = grid_of(&entries, columns);
        let mut notes: Vec<String> = Vec::new();
        proof {
            assert(notes.deep_view() =~= seq![]);
        }
        if is_set(ini.get_bool("General", "cryptoEnabled")) && !is_set(
            ini.get_bool("General", "requireClientCertificate"),
        ) {
            add_note(
                &mut notes,
                "Barrier had TLS on but was not checking client certificates, so any host that could reach the port could connect. Devices are paired explicitly here.",
            );
        }
        if copied(ini.get_any("General", "interface")).is_none() {
            add_note(
                &mut notes,
                "Barrier was listening on every interface. Set network.listen to the addresses you actually use.",
            );
        }
        if is_set(ini.get_bool("General", "useInternalConfig")) {
            add_note(
                &mut notes,
                "The GUI was managing the screen layout, which means any hand-edited barrier.conf was being overwritten.",
            );
        }
        add_note(
            &mut notes,
            "Stored TLS fingerprints were not imported: Barrier trusted them on first sight. Each machine is paired again.",
        );
        proof {
            assert(notes.deep_view() =~= imported(s).notes);
        }
        Import {
            screen_name: copied(ini.get_any("General", "screenName")),
            is_server: is_set(ini.get_bool("General", "groupServerChecked")),
            server_host: copied(ini.get_any("General", "serverHostname")),
            port,
            switch_delay_ms,
            switch_double_tap_ms,
            clipboard: ini.get_bool("internalConfig", "clipboardSharing"),
            clipboard_limit,
            drag_drop: ini.get_bool("internalConfig", "enableDragAndDrop"),
            grid,
            grid_columns: columns,
            grid_rows: rows,
            notes,
        }
    }

    fn add_screen(&mut self, name: &String)
        ensures
            final(self).deep_view() == (ImportView {
                grid: with_screen(old(self).deep_view().grid, name@),
                ..old(self).deep_view()
            }),
    {
        let ghost grid = self.grid.deep_view();
        let mut i: usize = 0;
        while i < self.grid.len()
            invariant
                i <= self.grid.len(),
                grid == self.grid.deep_view(),
                self == old(self),
                forall|k: int| 0 <= k < i ==> (#[trigger] grid[k]).name != name@,
            decreases self.grid.len() - i,
        {
            if self.grid[i].name.same(name) {
                proof {
                    assert(grid[i as int].name == name@);
                }
                return ;
            }
            i += 1;
        }
        self.grid.push(GridScreen { name: name.clone(), column: 0, row: 0 });
        proof {
            assert(self.grid.deep_view() =~= grid.push(
                GridView { name: name@, column: 0, row: 0 },
            ));
        }
    }

    fn apply_option(&mut self, option: &String, value: &String)
        ensures
            final(self).deep_view() == with_option(old(self).deep_view(), option@, value@),
    {
        let name: Vec<char> = chars_of(option.as_str());
        let given: Vec<char> = chars_of(value.as_str());
        if is_word(&name, "switchDelay") {
            self.switch_delay_ms = match number_of(&given, u32::MAX as u64) {
                Some(n) => Some(n as u32),
                None => None,
            };
        } else if is_word(&name, "switchDoubleTap") {
            self.switch_double_tap_ms = match number_of(&given, u32::MAX as u64) {
                Some(n) => Some(n as u32),
                None => None,
            };
        } else if is_word(&name, "clipboardSharing") {
            self.clipboard = Some(is_word(&given, "true"));
        } else if is_word(&name, "screenSaverSync") || is_word(&name, "relativeMouseMoves")
            || is_word(&name, "win32KeepForeground") {
        } else {
            let mut note: Vec<char> = chars_of("Barrier option `");
            add_text(&mut note, option.as_str());
            add_text(&mut note, " = ");
            add_text(&mut note, value.as_str());
            add_text(&mut note, "` has no equivalent here.");
            let ghost earlier = self.notes.deep_view();
            self.notes.push(text_of(&note));
            proof {
                assert(self.notes.deep_view() =~= earlier.push(note@));
            }
        }
    }

    /// Fold in a server's text configuration, which carries the screen names
    /// and any partial-edge links the GUI could not express.
    pub fn merge_server_config(&mut self, cfg: &ServerConfig)
        ensures
            final(self).deep_view() == merged(old(self).deep_view(), cfg.deep_view()),
    {
        let ghost first = self.deep_view();
        let ghost names = cfg.screens.deep_view();
        let mut i: usize = 0;
        proof {
            assert(names.take(0) =~= Seq::<Seq<char>>::empty());
        }
        while i < cfg.screens.len()
            invariant
                i <= cfg.screens.len(),
                names == cfg.screens.deep_view(),
                self.deep_view() == (ImportView {
                    grid: with_screens(first.grid, names.take(i as int)),
                    ..first
                }),
            decreases cfg.screens.len() - i,
        {
            proof {
                assert(names.take(i + 1).drop_last() =~= names.take(i as int));
                assert(names.take(i + 1).last() == cfg.screens@[i as int]@);
            }
            self.add_screen(&cfg.screens[i]);
            i += 1;
        }
        proof {
            assert(names.take(i as int) =~= names);
        }
        let mut any_partial: bool = false;
        let ghost links = cfg.links.deep_view();
        let mut k: usize = 0;
        while k < cfg.links.len()
            invariant
                k <= cfg.links.len(),
                links == cfg.links.deep_view(),
                any_partial == exists|j: int| 0 <= j < k && partial(#[trigger] links[j]),
            decreases cfg.links.len() - k,
        {
            let found: bool = cfg.links[k].from_range.is_some() || cfg.links[k].to_range.is_some();
            proof {
                assert(found == partial(links[k as int]));
            }
            any_partial = any_partial || found;
            k += 1;
        }
        if any_partial {
            add_note(
                &mut self.notes,
                "The text config used partial-edge links to work around one-rectangle-per-machine. Monitors are placed individually here, so those are no longer needed.",
            );
        }
        let ghost start = self.deep_view();
        proof {
            assert(start.notes =~= first.notes + when(any_partial, partial_edges_note()));
            assert(start =~= ImportView {
                grid: with_screens(first.grid, names),
                notes: first.notes + when(any_partial, partial_edges_note()),
                ..first
            });
            assert(any_partial == exists|j: int|
                0 <= j < cfg.deep_view().links.len() && partial(
                    #[trigger] cfg.deep_view().links[j],
                ));
        }
        let ghost options = cfg.options.entries();
        let mut m: usize = 0;
        proof {
            assert(options.take(0) =~= Seq::<(Seq<char>, Seq<char>)>::empty());
        }
        while m < cfg.options.rows.len()
            invariant
                m <= cfg.options.rows.len(),
                options == cfg.options.entries(),
                self.deep_view() == with_options(start, options.take(m as int)),
            decreases cfg.options.rows.len() - m,
        {
            proof {
                assert(options.take(m + 1).drop_last() =~= options.take(m as int));
                assert(options.take(m + 1).last() == cfg.options.rows@[m as int].deep_view());
            }
            self.apply_option(&cfg.options.rows[m].0, &cfg.options.rows[m].1);
            m += 1;
        }
        proof {
            assert(options.take(m as int) =~= options);
        }
    }
}

} // verus!
