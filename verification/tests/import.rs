//! Migrating a real Barrier installation.
//!
//! The settings are of the kind the Barrier GUI keeps (addresses replaced),
//! beside a server-side text config of the kind a multi-monitor user ends up
//! hand-writing. What matters is that the settings worth keeping come across,
//! that trust does not, and that the user is told what was left behind.

use smkvm::barrier::{Edge, Import, ServerConfig};
use smkvm::config::{
    Config, ConfigError, CONFIG_VERSION, DEFAULT_CLIPBOARD_MAX, DEFAULT_HEARTBEAT_MS, DEFAULT_PORT,
    DEFAULT_PROMPT_OVER,
};
use smkvm::control::Role;
use smkvm::ini::Ini;

const QT_SETTINGS: &str = r#"[General]
autoConfig=false
autoHide=false
cryptoEnabled=true
elevateModeEnum=0
groupClientChecked=true
groupServerChecked=false
interface=
logLevel=0
port=24800
requireClientCertificate=false
screenName=ubuntu-box
serverHostname=192.0.2.10
useExternalConfig=false
useInternalConfig=true

[internalConfig]
clipboardSharing=true
clipboardSharingSize=@Variant(\0\0\0\x84\0\0\0\0\0\0\xc\0)
enableDragAndDrop=true
hasHeartbeat=false
hasSwitchDelay=false
hasSwitchDoubleTap=false
heartbeat=5000
numColumns=5
numRows=3
screens\1\name=
screens\2\name=
screens\3\name=
screens\4\name=
screens\5\name=
screens\6\name=
screens\7\name=
screens\8\alias\1\alias=
screens\8\name=ubuntu-box
screens\9\name=WIN-STUDY
screens\10\name=
screens\size=15
switchDelay=250
switchDoubleTap=250
"#;

const SERVER_CONFIG: &str = "# a desk with one machine above another
section: screens
\tubuntu-box:
\t\thalfDuplexCapsLock = false
\tWIN-STUDY:
\tWIN-LAPTOP:
end

section: aliases
\tubuntu-box:
\t\tlinux-desk
end

section: links
\tubuntu-box:
\t\tup(0,50) = WIN-STUDY(0,100)
\t\tup(50,100) = WIN-LAPTOP(0,100)
\tWIN-STUDY:
\t\tdown = ubuntu-box(0,50)
\tWIN-LAPTOP:
\t\tdown = ubuntu-box(50,100)
end

section: options
\tswitchDelay = 250
\tscreenSaverSync = true
\trelativeMouseMoves = false
end
";

fn import() -> Import {
    Import::from_qt_settings(QT_SETTINGS)
}

fn key(name: &str) -> String {
    name.to_string()
}

#[test]
fn the_machines_own_settings_come_across() {
    let i = import();
    assert_eq!(i.screen_name.as_deref(), Some("ubuntu-box"));
    assert!(!i.is_server, "this machine was configured as a client");
    assert_eq!(i.server_host.as_deref(), Some("192.0.2.10"));
    assert_eq!(i.port, Some(24800));
    assert_eq!(i.clipboard, Some(true));
    assert_eq!(i.drag_drop, Some(true));
}

#[test]
fn switch_timings_are_only_taken_when_they_were_enabled() {
    // The settings have hasSwitchDelay=false with switchDelay=250 left over.
    // Importing the number regardless would introduce a delay the user had
    // switched off.
    let i = import();
    assert_eq!(i.switch_delay_ms, None);
    assert_eq!(i.switch_double_tap_ms, None);
}

#[test]
fn the_screen_grid_is_recovered_with_positions() {
    let i = import();
    let names: Vec<_> = i.grid.iter().map(|g| g.name.as_str()).collect();
    assert_eq!(names, ["ubuntu-box", "WIN-STUDY"]);

    // numColumns=5, and Qt's indices are one-based: entries 8 and 9 are
    // columns 2 and 3 of row 1, i.e. side by side.
    assert_eq!(i.grid_columns, 5);
    assert_eq!((i.grid[0].column, i.grid[0].row), (2, 1));
    assert_eq!((i.grid[1].column, i.grid[1].row), (3, 1));
}

#[test]
fn the_user_is_told_what_was_not_carried_over() {
    let notes = import().notes.join("\n");
    assert!(
        notes.contains("paired again"),
        "must say fingerprints are not inherited:\n{notes}"
    );
    assert!(
        notes.contains("every interface"),
        "must flag the wide-open bind:\n{notes}"
    );
    assert!(
        notes.contains("client certificates"),
        "must flag that clients were never verified:\n{notes}"
    );
}

#[test]
fn a_text_config_with_partial_edges_parses() {
    let cfg = ServerConfig::parse(SERVER_CONFIG);
    assert_eq!(cfg.screens.len(), 3);
    assert_eq!(cfg.aliases.get(&key("ubuntu-box")), Some(&vec![key("linux-desk")]));
    assert_eq!(cfg.options.get(&key("switchDelay")), Some(&key("250")));

    // The intervals the GUI cannot show, on both sides of the link.
    let up: Vec<_> = cfg
        .links
        .iter()
        .filter(|l| l.from == "ubuntu-box" && l.edge == Edge::Up)
        .collect();
    assert_eq!(up.len(), 2);
    assert_eq!(up[0].from_range, Some((0, 50)));
    assert_eq!(up[0].to, "WIN-STUDY");
    assert_eq!(up[1].from_range, Some((50, 100)));

    let down = cfg
        .links
        .iter()
        .find(|l| l.from == "WIN-STUDY" && l.edge == Edge::Down)
        .unwrap();
    assert_eq!(down.to, "ubuntu-box");
    assert_eq!(down.to_range, Some((0, 50)));
}

#[test]
fn merging_a_text_config_adds_its_screens_and_explains_the_workaround() {
    let mut i = import();
    i.merge_server_config(&ServerConfig::parse(SERVER_CONFIG));

    let names: Vec<_> = i.grid.iter().map(|g| g.name.as_str()).collect();
    assert!(names.contains(&"WIN-LAPTOP"), "third machine picked up");

    let notes = i.notes.join("\n");
    assert!(
        notes.contains("partial-edge links"),
        "must explain why they are no longer needed:\n{notes}"
    );
    // Options with a real equivalent are applied, not reported as unknown.
    assert_eq!(i.switch_delay_ms, Some(250));
    assert!(!notes.contains("screenSaverSync"));
}

#[test]
fn an_option_with_no_equivalent_is_named() {
    let mut i = import();
    let text = "section: options\n\theartbeat = 5000\n\tclipboardSharing = false\nend\n";
    i.merge_server_config(&ServerConfig::parse(text));
    assert_eq!(i.clipboard, Some(false));
    assert_eq!(
        i.notes.last().map(String::as_str),
        Some("Barrier option `heartbeat = 5000` has no equivalent here.")
    );
}

#[test]
fn the_resulting_config_is_usable() {
    let mut i = import();
    i.merge_server_config(&ServerConfig::parse(SERVER_CONFIG));
    let cfg = Config::from_barrier(&i);

    assert_eq!(cfg.identity.name, "ubuntu-box");
    assert_eq!(cfg.network.role, Role::Client);
    assert_eq!(cfg.network.server.as_deref(), Some("192.0.2.10"));
    assert_eq!(
        cfg.network.port, DEFAULT_PORT,
        "a different port lets both run side by side during a changeover"
    );
    assert_eq!(cfg.screen.len(), 3);
    assert!(
        cfg.screen.iter().all(|s| s.device.is_none()),
        "no machine is trusted until it has been paired"
    );
    assert_eq!(cfg.behavior.switch_delay_ms, 250);
    assert_eq!(cfg.screen[0].grid, Some([2, 1]));
}

#[test]
fn a_fresh_config_has_the_usual_settings() {
    let cfg = Config::fresh("workstation", Role::Server);
    assert_eq!(cfg.version, CONFIG_VERSION);
    assert_eq!(cfg.identity.name, "workstation");
    assert_eq!(cfg.network.role, Role::Server);
    assert_eq!((cfg.network.port, DEFAULT_PORT), (24810, 24810));
    assert_eq!((cfg.network.heartbeat_ms, DEFAULT_HEARTBEAT_MS), (3000, 3000));
    assert!(cfg.network.listen.is_empty() && cfg.network.prefer_lan);
    assert!(cfg.behavior.release_keys_on_disconnect);
    assert!(cfg.clipboard.enabled && cfg.transfer.enabled);
    assert_eq!(cfg.clipboard.formats, ["text", "html", "image", "files"]);
    assert_eq!((cfg.clipboard.max_bytes, DEFAULT_CLIPBOARD_MAX), (128 << 20, 128 << 20));
    assert_eq!((cfg.transfer.prompt_over_bytes, DEFAULT_PROMPT_OVER), (256 << 20, 256 << 20));
    assert_eq!(cfg.transfer.directory, "~/Downloads/SMKVM");
    assert!(cfg.screen.is_empty());
}

#[test]
fn a_config_from_a_newer_build_is_refused_rather_than_misread() {
    let mut cfg = Config::fresh("desk", Role::Server);
    cfg.version = 9999;
    let refused = cfg.understood();
    assert!(matches!(refused, Err(ConfigError::TooNew { found: 9999, .. })));
    assert_eq!(
        refused.err().unwrap().message(),
        "configuration version 9999 is newer than this build understands (1)"
    );
    let mut cfg = Config::fresh("desk", Role::Server);
    cfg.version = 1;
    assert!(cfg.understood().is_ok());
}

#[test]
fn a_limit_below_the_usual_one_is_raised_to_it() {
    let mut i = import();
    i.clipboard_limit = Some(3072);
    assert_eq!(Config::from_barrier(&i).clipboard.max_bytes, DEFAULT_CLIPBOARD_MAX);
    i.clipboard_limit = Some(1 << 40);
    assert_eq!(Config::from_barrier(&i).clipboard.max_bytes, 1 << 40);
}

#[test]
fn settings_are_read_the_way_qt_writes_them() {
    let ini = Ini::parse("[General]\nname=\"a \\x41 b\"\nport=24800\non=true\n");
    assert_eq!(ini.get_u32("General", "port"), Some(24800));
    assert_eq!(ini.get_bool("General", "on"), Some(true));
    assert_eq!(ini.get("General", "missing"), None);

    // An escape stands for a character; a letter written as it is, for itself.
    let ini = Ini::parse("[%47eneral]\nn%C3me=caf\u{e9} %41%00%zz %\u{e9}\u{e9} 5%\n");
    assert_eq!(ini.get("General", "n\u{c3}me"), Some("caf\u{e9} A%zz %\u{e9}\u{e9} 5%"));
}

#[test]
fn comments_and_blank_lines_change_nothing_in_a_text_configuration() {
    let text = "section: screens # all of them\n\tleft:\n\t\t# nothing\n\tright:\nend\n\
                section: links\n\tleft:\n\t\tright(0,50) = right(50,100) # half\nend\n\
                section: options\n\tswitchDelay = 250\nend\n";
    let bare = "\n section: screens\n\n\tleft:\r\n\t\t\n\tright:\nend\n\n\
                section: links\n\tleft:\n  \t\n\t\tright(0,50) = right(50,100)\nend\n\
                section: options\n\tswitchDelay = 250\nend";
    let read = ServerConfig::parse(text);
    assert_eq!(read, ServerConfig::parse(bare));
    assert_eq!(read.screens, vec!["left", "right"]);
    assert_eq!(read.links.len(), 1);
    assert_eq!(read.links[0].to_range, Some((50, 100)));
}

#[test]
fn what_is_read_can_be_copied_and_begins_empty() {
    let read = ServerConfig::parse("section: screens\nleft:\nend\n");
    assert_eq!(read.clone(), read);
    assert_eq!(ServerConfig::default(), ServerConfig::parse(""));
    assert_eq!(Ini::default().get("General", "a"), None);
    assert_ne!(Ini::default(), Ini::parse("[General]\na=b\n"));
    let ini = Ini::parse("[General]\na=b\n");
    assert_eq!(ini.clone(), ini);
    assert_eq!(Ini::from(ini.clone().sections), ini);
    let empty = Import::default();
    assert!(!empty.is_server && empty.screen_name.is_none() && empty.grid.is_empty());
    assert_eq!(empty.clone(), empty);
    let config = Config::from_barrier(&empty);
    assert_eq!(config.clone(), config);
}
