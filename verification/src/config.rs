//! The configuration, and migration from an existing Barrier setup.
//!
//! Everything that describes a particular set of machines is data, never
//! code. Which machine is the server, how many there are, how their monitors
//! are arranged: adding a computer or swapping one out is an edit, not a
//! rebuild.

use vstd::prelude::*;

use crate::barrier::{GridScreen, GridView, Import, ImportView};
use crate::control::Role;
use crate::layout::{DeviceId, Rect};
use crate::text::{add_text, chars_of, decimal, decimal_of, text_of};

verus! {

/// Default listening port.
///
/// Deliberately not Barrier's 24800, so both can run at once during a
/// changeover and going back is always possible.
pub const DEFAULT_PORT: u16 = 24810;

/// Current configuration schema version.
pub const CONFIG_VERSION: u32 = 1;

/// Nothing larger is carried in one go unless the configuration says so.
pub const DEFAULT_CLIPBOARD_MAX: u64 = 134_217_728;

/// Anything larger is asked about, unless the configuration says otherwise.
pub const DEFAULT_PROMPT_OVER: u64 = 268_435_456;

pub const DEFAULT_HEARTBEAT_MS: u32 = 3000;

/// What can be wrong with a configuration that was read.
#[derive(Debug, Clone, Copy, PartialEq, Eq, Structural)]
pub enum ConfigError {
    TooNew { found: u32, known: u32 },
}

impl ConfigError {
    /// What this says to a person.
    pub fn message(&self) -> (r: String)
        ensures
            match *self {
                ConfigError::TooNew { found, known } => r@ == "configuration version "@ + decimal(
                    found as nat,
                ) + " is newer than this build understands ("@ + decimal(known as nat) + ")"@,
            },
    {
        match self {
            ConfigError::TooNew { found, known } => {
                let mut r: Vec<char> = chars_of("configuration version ");
                let mut number: Vec<char> = decimal_of(*found as u64);
                r.append(&mut number);
                add_text(&mut r, " is newer than this build understands (");
                let mut number: Vec<char> = decimal_of(*known as u64);
                r.append(&mut number);
                add_text(&mut r, ")");
                text_of(&r)
            },
        }
    }
}

#[derive(Debug, Clone, PartialEq, Eq)]
pub struct Identity {
    /// How this machine appears to the others. Free to change: identity is
    /// carried by the device key, not the name.
    pub name: String,
}

#[derive(Debug, Clone, PartialEq, Eq)]
pub struct Network {
    /// Whether this machine owns the keyboard and mouse or receives from one.
    /// Changing role is a config edit and nothing more.
    pub role: Role,
    /// For a client: where the server is, as `host` or `host:port`.
    pub server: Option<String>,
    /// For a server: which addresses to accept connections on.
    ///
    /// Empty means the loopback address alone: no network is listened on that
    /// was not named. Listing addresses keeps the surface to the networks
    /// actually in use.
    pub listen: Vec<String>,
    pub port: u16,
    /// Prefer a direct local address over a VPN one when a peer offers both.
    pub prefer_lan: bool,
    /// How long to wait for a heartbeat before treating the link as dead.
    pub heartbeat_ms: u32,
}

#[verifier::ext_equal]
pub struct NetworkView {
    pub role: Role,
    pub server: Option<Seq<char>>,
    pub listen: Seq<Seq<char>>,
    pub port: u16,
    pub prefer_lan: bool,
    pub heartbeat_ms: u32,
}

impl DeepView for Network {
    type V = NetworkView;

    open spec fn deep_view(&self) -> NetworkView {
        NetworkView {
            role: self.role,
            server: self.server.deep_view(),
            listen: self.listen.deep_view(),
            port: self.port,
            prefer_lan: self.prefer_lan,
            heartbeat_ms: self.heartbeat_ms,
        }
    }
}

/// How the cursor crosses. What happens at an edge with nothing beyond it is
/// the layout's to say.
#[derive(Debug, Clone, Copy, PartialEq, Eq, Structural)]
pub struct Behavior {
    /// How long the cursor must rest against an edge before it crosses. Zero
    /// crosses immediately.
    pub switch_delay_ms: u32,
    /// When set, an edge is only crossed if it is struck twice within this
    /// window.
    pub switch_double_tap_ms: u32,
    /// Release every key and button on the far machine when a link drops.
    /// Without this a modifier held at the wrong moment stays down.
    pub release_keys_on_disconnect: bool,
}

#[derive(Debug, Clone, PartialEq, Eq)]
pub struct Clipboard {
    pub enabled: bool,
    /// Which flavours to share. Images travel as PNG.
    pub formats: Vec<String>,
    /// Refuse to transfer more than this in one go.
    ///
    /// Contents are fetched only when something is pasted, so a large limit
    /// costs nothing until it is used. Exceeding it is reported, never a
    /// silent drop.
    pub max_bytes: u64,
}

#[verifier::ext_equal]
pub struct ClipboardView {
    pub enabled: bool,
    pub formats: Seq<Seq<char>>,
    pub max_bytes: u64,
}

impl DeepView for Clipboard {
    type V = ClipboardView;

    open spec fn deep_view(&self) -> ClipboardView {
        ClipboardView {
            enabled: self.enabled,
            formats: self.formats.deep_view(),
            max_bytes: self.max_bytes,
        }
    }
}

#[derive(Debug, Clone, PartialEq, Eq)]
pub struct Transfer {
    pub enabled: bool,
    /// Where received files land.
    pub directory: String,
    /// Ask before accepting a transfer larger than this.
    pub prompt_over_bytes: u64,
}

#[verifier::ext_equal]
pub struct TransferView {
    pub enabled: bool,
    pub directory: Seq<char>,
    pub prompt_over_bytes: u64,
}

impl DeepView for Transfer {
    type V = TransferView;

    open spec fn deep_view(&self) -> TransferView {
        TransferView {
            enabled: self.enabled,
            directory: self.directory@,
            prompt_over_bytes: self.prompt_over_bytes,
        }
    }
}

/// Where one monitor sits on the global desktop.
#[derive(Debug, Clone, PartialEq, Eq)]
pub struct MonitorPlacement {
    /// The owning device's stable name for this output, e.g. `DP-2`.
    pub id: String,
    /// Position and size on the global desktop, as `[x, y, w, h]`.
    pub global: [i32; 4],
}

#[verifier::ext_equal]
pub struct PlacementView {
    pub id: Seq<char>,
    pub global: Seq<i32>,
}

impl DeepView for MonitorPlacement {
    type V = PlacementView;

    open spec fn deep_view(&self) -> PlacementView {
        PlacementView { id: self.id@, global: self.global@ }
    }
}

/// The rectangle that four numbers give.
pub open spec fn rect_of(global: Seq<i32>) -> Rect {
    Rect { x: global[0], y: global[1], w: global[2], h: global[3] }
}

impl MonitorPlacement {
    pub fn rect(&self) -> (r: Rect)
        ensures
            r == rect_of(self.global@),
    {
        Rect::new(self.global[0], self.global[1], self.global[2], self.global[3])
    }
}

/// A machine in the layout.
#[derive(Debug, Clone, PartialEq, Eq)]
pub struct Screen {
    pub name: String,
    /// Stable identity, filled in once the machine has been paired. Absent for
    /// a machine that is known by name but has not connected yet, which is the
    /// state an import leaves things in.
    pub device: Option<DeviceId>,
    /// Where the machine sat in an imported Barrier grid, as `[column, row]`.
    /// Only a hint for first placement; real geometry arrives from the machine.
    pub grid: Option<[u32; 2]>,
    pub monitor: Vec<MonitorPlacement>,
}

#[verifier::ext_equal]
pub struct ScreenView {
    pub name: Seq<char>,
    pub device: Option<DeviceId>,
    pub grid: Option<Seq<u32>>,
    pub monitor: Seq<PlacementView>,
}

impl DeepView for Screen {
    type V = ScreenView;

    open spec fn deep_view(&self) -> ScreenView {
        ScreenView {
            name: self.name@,
            device: self.device,
            grid: match self.grid {
                Some(grid) => Some(grid@),
                None => None,
            },
            monitor: self.monitor.deep_view(),
        }
    }
}

#[derive(Debug, Clone, PartialEq, Eq)]
pub struct Config {
    pub version: u32,
    pub identity: Identity,
    pub network: Network,
    pub behavior: Behavior,
    pub clipboard: Clipboard,
    pub transfer: Transfer,
    /// The machines in the layout. Server-side only; a client learns the
    /// layout from the server.
    pub screen: Vec<Screen>,
}

#[verifier::ext_equal]
pub struct ConfigView {
    pub version: u32,
    pub name: Seq<char>,
    pub network: NetworkView,
    pub behavior: Behavior,
    pub clipboard: ClipboardView,
    pub transfer: TransferView,
    pub screen: Seq<ScreenView>,
}

impl DeepView for Config {
    type V = ConfigView;

    open spec fn deep_view(&self) -> ConfigView {
        ConfigView {
            version: self.version,
            name: self.identity.name@,
            network: self.network.deep_view(),
            behavior: self.behavior,
            clipboard: self.clipboard.deep_view(),
            transfer: self.transfer.deep_view(),
            screen: self.screen.deep_view(),
        }
    }
}

pub open spec fn default_behavior() -> Behavior {
    Behavior { switch_delay_ms: 0, switch_double_tap_ms: 0, release_keys_on_disconnect: true }
}

pub open spec fn default_formats() -> Seq<Seq<char>> {
    seq!["text"@, "html"@, "image"@, "files"@]
}

pub open spec fn default_clipboard() -> ClipboardView {
    ClipboardView {
        enabled: true,
        formats: default_formats(),
        max_bytes: DEFAULT_CLIPBOARD_MAX,
    }
}

pub open spec fn default_transfer() -> TransferView {
    TransferView {
        enabled: true,
        directory: "~/Downloads/SMKVM"@,
        prompt_over_bytes: DEFAULT_PROMPT_OVER,
    }
}

/// A usable configuration for a machine with no prior setup.
pub open spec fn fresh_config(name: Seq<char>, role: Role) -> ConfigView {
    ConfigView {
        version: CONFIG_VERSION,
        name,
        network: NetworkView {
            role,
            server: None,
            listen: seq![],
            port: DEFAULT_PORT,
            prefer_lan: true,
            heartbeat_ms: DEFAULT_HEARTBEAT_MS,
        },
        behavior: default_behavior(),
        clipboard: default_clipboard(),
        transfer: default_transfer(),
        screen: seq![],
    }
}

pub open spec fn imported_screen() -> spec_fn(GridView) -> ScreenView {
    |g: GridView|
        ScreenView {
            name: g.name,
            device: None,
            grid: Some(seq![g.column, g.row]),
            monitor: seq![],
        }
}

/// What a Barrier setup becomes. Machine names, roles, timings and preferences
/// come across. Layout does not, nor does the port: running on a different one
/// means both can be up at once while switching over. A limit on the clipboard
/// is never lowered below the default.
pub open spec fn migrated(import: ImportView) -> ConfigView {
    let fresh = fresh_config(
        match import.screen_name {
            Some(name) => name,
            None => "smkvm"@,
        },
        if import.is_server {
            Role::Server
        } else {
            Role::Client
        },
    );
    ConfigView {
        network: NetworkView { server: import.server_host, ..fresh.network },
        behavior: Behavior {
            switch_delay_ms: match import.switch_delay_ms {
                Some(ms) => ms,
                None => 0,
            },
            switch_double_tap_ms: match import.switch_double_tap_ms {
                Some(ms) => ms,
                None => 0,
            },
            ..fresh.behavior
        },
        clipboard: ClipboardView {
            enabled: match import.clipboard {
                Some(enabled) => enabled,
                None => true,
            },
            max_bytes: match import.clipboard_limit {
                Some(limit) => if limit > DEFAULT_CLIPBOARD_MAX {
                    limit
                } else {
                    DEFAULT_CLIPBOARD_MAX
                },
                None => DEFAULT_CLIPBOARD_MAX,
            },
            ..fresh.clipboard
        },
        transfer: TransferView {
            enabled: match import.drag_drop {
                Some(enabled) => enabled,
                None => true,
            },
            ..fresh.transfer
        },
        screen: import.grid.map_values(imported_screen()),
        ..fresh
    }
}

impl Default for Behavior {
    fn default() -> (r: Behavior)
        ensures
            r == default_behavior(),
    {
        Behavior { switch_delay_ms: 0, switch_double_tap_ms: 0, release_keys_on_disconnect: true }
    }
}

impl Default for Clipboard {
    fn default() -> (r: Clipboard)
        ensures
            r.deep_view() == default_clipboard(),
    {
        let mut formats: Vec<String> = Vec::new();
        formats.push("text".to_owned());
        formats.push("html".to_owned());
        formats.push("image".to_owned());
        formats.push("files".to_owned());
        assert(formats.deep_view() =~= default_formats());
        Clipboard { enabled: true, formats, max_bytes: DEFAULT_CLIPBOARD_MAX }
    }
}

impl Default for Transfer {
    fn default() -> (r: Transfer)
        ensures
            r.deep_view() == default_transfer(),
    {
        Transfer {
            enabled: true,
            directory: "~/Downloads/SMKVM".to_owned(),
            prompt_over_bytes: DEFAULT_PROMPT_OVER,
        }
    }
}

impl Config {
    /// A usable configuration for a machine with no prior setup.
    pub fn fresh(name: &str, role: Role) -> (r: Config)
        ensures
            r.deep_view() == fresh_config(name@, role),
    {
        let listen: Vec<String> = Vec::new();
        let screen: Vec<Screen> = Vec::new();
        assert(listen.deep_view() =~= seq![]);
        assert(screen.deep_view() =~= seq![]);
        Config {
            version: CONFIG_VERSION,
            identity: Identity { name: name.to_owned() },
            network: Network {
                role,
                server: None,
                listen,
                port: DEFAULT_PORT,
                prefer_lan: true,
                heartbeat_ms: DEFAULT_HEARTBEAT_MS,
            },
            behavior: Behavior::default(),
            clipboard: Clipboard::default(),
            transfer: Transfer::default(),
            screen,
        }
    }

    /// A configuration that was read, unless it is newer than this build
    /// understands.
    pub fn understood(self) -> (r: Result<Config, ConfigError>)
        ensures
            match r {
                Ok(config) => config == self && self.version <= CONFIG_VERSION,
                Err(e) => self.version > CONFIG_VERSION && e == (ConfigError::TooNew {
                    found: self.version,
                    known: CONFIG_VERSION,
                }),
            },
    {
        if self.version > CONFIG_VERSION {
            return Err(ConfigError::TooNew { found: self.version, known: CONFIG_VERSION });
        }
        Ok(self)
    }

    /// Build a configuration from what an existing Barrier setup was doing.
    ///
    /// Machine names, roles, timings and preferences come across. Layout does
    /// not: Barrier only knew one rectangle per machine, so the grid is kept
    /// as a hint and real placement waits until each machine reports its
    /// monitors.
    pub fn from_barrier(import: &Import) -> (r: Config)
        ensures
            r.deep_view() == migrated(import.deep_view()),
    {
        let role: Role = if import.is_server {
            Role::Server
        } else {
            Role::Client
        };
        let mut config: Config = match &import.screen_name {
            Some(name) => Config::fresh(name.as_str(), role),
            None => Config::fresh("smkvm", role),
        };
        config.network.server = match &import.server_host {
            Some(host) => Some(host.clone()),
            None => None,
        };
        config.behavior.switch_delay_ms = match import.switch_delay_ms {
            Some(ms) => ms,
            None => 0,
        };
        config.behavior.switch_double_tap_ms = match import.switch_double_tap_ms {
            Some(ms) => ms,
            None => 0,
        };
        if let Some(enabled) = import.clipboard {
            config.clipboard.enabled = enabled;
        }
        if let Some(limit) = import.clipboard_limit {
            config.clipboard.max_bytes = if limit > DEFAULT_CLIPBOARD_MAX {
                limit
            } else {
                DEFAULT_CLIPBOARD_MAX
            };
        }
        if let Some(enabled) = import.drag_drop {
            config.transfer.enabled = enabled;
        }
        config.screen = screens_of(&import.grid);
        assert(config.deep_view() =~= migrated(import.deep_view()));
        config
    }
}

fn screens_of(grid: &Vec<GridScreen>) -> (r: Vec<Screen>)
    ensures
        r.deep_view() == grid.deep_view().map_values(imported_screen()),
{
    let mut r: Vec<Screen> = Vec::new();
    let mut i: usize = 0;
    while i < grid.len()
        invariant
            i <= grid.len(),
            r.deep_view() =~= grid.deep_view().take(i as int).map_values(imported_screen()),
        decreases grid.len() - i,
    {
        let ghost before = r.deep_view();
        let monitor: Vec<MonitorPlacement> = Vec::new();
        let screen: Screen = Screen {
            name: grid[i].name.clone(),
            device: None,
            grid: Some([grid[i].column, grid[i].row]),
            monitor,
        };
        proof {
            assert(monitor.deep_view() =~= seq![]);
            let g = grid.deep_view()[i as int];
            assert(screen.deep_view().grid->0 =~= seq![g.column, g.row]);
            assert(screen.deep_view() =~= imported_screen()(g));
        }
        let ghost sv = screen.deep_view();
        r.push(screen);
        assert(r.deep_view() =~= before.push(sv));
        i += 1;
    }
    assert(grid.deep_view().take(i as int) =~= grid.deep_view());
    r
}

} // verus!
