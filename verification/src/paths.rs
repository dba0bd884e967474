//! Where things are kept.
//!
//! Configuration is meant to be read and edited; state is this machine's own
//! secrets and bookkeeping. Keeping them apart means a configuration file can
//! be copied between machines without carrying an identity along with it.
//!
//! A place is a root and what lies below it. What a variable of the
//! environment holds, and how the platform joins the parts, is for whoever
//! opens the file.

use vstd::prelude::*;

use crate::text::{after_prefix, chars_of, is_word, strip_start, text_of, trim, trimmed};

verus! {

/// The variables of the environment that matter here.
#[derive(Debug, Clone, Copy, PartialEq, Eq, Structural)]
pub enum Variable {
    AppData,
    LocalAppData,
    XdgConfigHome,
    XdgDataHome,
    Home,
    UserProfile,
}

pub open spec fn variable_name(v: Variable) -> Seq<char> {
    match v {
        Variable::AppData => "APPDATA"@,
        Variable::LocalAppData => "LOCALAPPDATA"@,
        Variable::XdgConfigHome => "XDG_CONFIG_HOME"@,
        Variable::XdgDataHome => "XDG_DATA_HOME"@,
        Variable::Home => "HOME"@,
        Variable::UserProfile => "USERPROFILE"@,
    }
}

impl Variable {
    /// What the environment calls it.
    pub fn name(self) -> (r: String)
        ensures
            r@ == variable_name(self),
    {
        match self {
            Variable::AppData => "APPDATA".to_owned(),
            Variable::LocalAppData => "LOCALAPPDATA".to_owned(),
            Variable::XdgConfigHome => "XDG_CONFIG_HOME".to_owned(),
            Variable::XdgDataHome => "XDG_DATA_HOME".to_owned(),
            Variable::Home => "HOME".to_owned(),
            Variable::UserProfile => "USERPROFILE".to_owned(),
        }
    }
}

/// Which platform this is, and which variables are set.
#[derive(Debug, Clone, Copy, PartialEq, Eq, Structural)]
pub struct Environment {
    pub windows: bool,
    pub app_data: bool,
    pub local_app_data: bool,
    pub xdg_config_home: bool,
    pub xdg_data_home: bool,
    pub home: bool,
    pub user_profile: bool,
}

/// What a place starts from.
#[derive(Debug, Clone, Copy, PartialEq, Eq, Structural)]
pub enum Root {
    /// What a variable of the environment holds.
    Variable(Variable),
    /// The current directory.
    Here,
    /// Nothing: what follows is the whole path.
    Given,
}

#[derive(Debug, PartialEq, Eq)]
pub struct Place {
    pub root: Root,
    /// Joined to the root, one after the other.
    pub below: Vec<String>,
}

#[verifier::ext_equal]
pub struct PlaceView {
    pub root: Root,
    pub below: Seq<Seq<char>>,
}

impl DeepView for Place {
    type V = PlaceView;

    open spec fn deep_view(&self) -> PlaceView {
        PlaceView { root: self.root, below: self.below.deep_view() }
    }
}

pub open spec fn config_place(env: Environment) -> PlaceView {
    if env.windows {
        if env.app_data {
            PlaceView { root: Root::Variable(Variable::AppData), below: seq!["smkvm"@] }
        } else {
            PlaceView { root: Root::Here, below: seq!["smkvm"@] }
        }
    } else if env.xdg_config_home {
        PlaceView { root: Root::Variable(Variable::XdgConfigHome), below: seq!["smkvm"@] }
    } else if env.home {
        PlaceView { root: Root::Variable(Variable::Home), below: seq![".config"@, "smkvm"@] }
    } else {
        PlaceView { root: Root::Here, below: seq!["smkvm"@] }
    }
}

pub open spec fn state_place(env: Environment) -> PlaceView {
    if env.windows {
        if env.local_app_data {
            PlaceView { root: Root::Variable(Variable::LocalAppData), below: seq!["smkvm"@] }
        } else {
            PlaceView { root: Root::Here, below: seq!["smkvm"@] }
        }
    } else if env.xdg_data_home {
        PlaceView { root: Root::Variable(Variable::XdgDataHome), below: seq!["smkvm"@] }
    } else if env.home {
        PlaceView { root: Root::Variable(Variable::Home), below: seq![".local/share"@, "smkvm"@] }
    } else {
        PlaceView { root: Root::Here, below: seq!["smkvm"@] }
    }
}

pub open spec fn inside(place: PlaceView, name: Seq<char>) -> PlaceView {
    PlaceView { below: place.below.push(name), ..place }
}

fn place(root: Root, first: &str) -> (r: Place)
    ensures
        r.deep_view() == (PlaceView { root, below: seq![first@] }),
{
    let mut below: Vec<String> = Vec::new();
    below.push(first.to_owned());
    assert(below.deep_view() =~= seq![first@]);
    Place { root, below }
}

impl Place {
    /// Something inside this place.
    fn join(self, name: &str) -> (r: Place)
        ensures
            r.deep_view() == inside(self.deep_view(), name@),
    {
        let mut below: Vec<String> = self.below;
        let ghost before = below.deep_view();
        below.push(name.to_owned());
        assert(below.deep_view() =~= before.push(name@));
        Place { root: self.root, below }
    }
}

/// Directory for the configuration file.
pub fn config_dir(env: &Environment) -> (r: Place)
    ensures
        r.deep_view() == config_place(*env),
{
    let r: Place = if env.windows {
        if env.app_data {
            place(Root::Variable(Variable::AppData), "smkvm")
        } else {
            place(Root::Here, "smkvm")
        }
    } else if env.xdg_config_home {
        place(Root::Variable(Variable::XdgConfigHome), "smkvm")
    } else if env.home {
        place(Root::Variable(Variable::Home), ".config").join("smkvm")
    } else {
        place(Root::Here, "smkvm")
    };
    assert(r.deep_view() =~= config_place(*env));
    r
}

/// Directory for this machine's key and its list of paired machines.
pub fn state_dir(env: &Environment) -> (r: Place)
    ensures
        r.deep_view() == state_place(*env),
{
    let r: Place = if env.windows {
        if env.local_app_data {
            place(Root::Variable(Variable::LocalAppData), "smkvm")
        } else {
            place(Root::Here, "smkvm")
        }
    } else if env.xdg_data_home {
        place(Root::Variable(Variable::XdgDataHome), "smkvm")
    } else if env.home {
        place(Root::Variable(Variable::Home), ".local/share").join("smkvm")
    } else {
        place(Root::Here, "smkvm")
    };
    assert(r.deep_view() =~= state_place(*env));
    r
}

pub fn config_file(env: &Environment) -> (r: Place)
    ensures
        r.deep_view() == inside(config_place(*env), "smkvm.toml"@),
{
    config_dir(env).join("smkvm.toml")
}

pub fn identity_file(env: &Environment) -> (r: Place)
    ensures
        r.deep_view() == inside(state_place(*env), "device.toml"@),
{
    state_dir(env).join("device.toml")
}

pub fn peers_file(env: &Environment) -> (r: Place)
    ensures
        r.deep_view() == inside(state_place(*env), "peers.toml"@),
{
    state_dir(env).join("peers.toml")
}

pub fn log_file(env: &Environment) -> (r: Place)
    ensures
        r.deep_view() == inside(state_place(*env), "smkvm.log"@),
{
    state_dir(env).join("smkvm.log")
}

/// Where the running daemon reports what it is connected to.
///
/// A file rather than a socket: anything that wants to show the state only
/// needs to read it, on any platform, with nothing to connect to and nothing
/// to fail when the daemon is not running.
pub fn status_file(env: &Environment) -> (r: Place)
    ensures
        r.deep_view() == inside(state_place(*env), "status.toml"@),
{
    state_dir(env).join("status.toml")
}

/// Where a machine's name can come from, the first of them first.
#[derive(Debug, PartialEq, Eq)]
pub struct Names {
    /// `SMKVM_NAME`
    pub given: Option<String>,
    /// `COMPUTERNAME`
    pub computer: Option<String>,
    /// `HOSTNAME`
    pub host: Option<String>,
    /// What `/etc/hostname` holds.
    pub host_file: Option<String>,
}

pub open spec fn first_name(names: Names) -> Seq<char> {
    match names.given {
        Some(name) => name@,
        None => match names.computer {
            Some(name) => name@,
            None => match names.host {
                Some(name) => name@,
                None => match names.host_file {
                    Some(text) => trim(text@),
                    None => seq![],
                },
            },
        },
    }
}

/// This machine's name, when the configuration does not give one.
pub fn default_name(names: &Names) -> (r: String)
    ensures
        r@ == (if first_name(*names).len() == 0 {
            "smkvm"@
        } else {
            first_name(*names)
        }),
{
    let found: Vec<char> = match &names.given {
        Some(name) => chars_of(name.as_str()),
        None => match &names.computer {
            Some(name) => chars_of(name.as_str()),
            None => match &names.host {
                Some(name) => chars_of(name.as_str()),
                None => match &names.host_file {
                    Some(text) => trimmed(&chars_of(text.as_str())),
                    None => Vec::new(),
                },
            },
        },
    };
    if found.len() == 0 {
        "smkvm".to_owned()
    } else {
        text_of(&found)
    }
}

/// The variable that holds the home directory.
pub open spec fn home_variable(env: Environment) -> Option<Variable> {
    if env.home {
        Some(Variable::Home)
    } else if env.user_profile {
        Some(Variable::UserProfile)
    } else {
        None
    }
}

pub open spec fn expanded(path: Seq<char>, env: Environment) -> PlaceView {
    if path == "~"@ {
        match home_variable(env) {
            Some(home) => PlaceView { root: Root::Variable(home), below: seq![] },
            None => PlaceView { root: Root::Here, below: seq![] },
        }
    } else {
        match (after_prefix(path, "~/"@), home_variable(env)) {
            (Some(rest), Some(home)) => PlaceView {
                root: Root::Variable(home),
                below: seq![rest],
            },
            _ => PlaceView { root: Root::Given, below: seq![path] },
        }
    }
}

/// Resolve a path from the configuration, where a leading `~` stands for the
/// home directory.
///
/// Only the bare `~` and `~/` forms are recognised: `~user` is another
/// person's home, which this has no business writing into.
pub fn expand_home(path: &str, env: &Environment) -> (r: Place)
    ensures
        r.deep_view() == expanded(path@, *env),
{
    let home: Option<Variable> = if env.home {
        Some(Variable::Home)
    } else if env.user_profile {
        Some(Variable::UserProfile)
    } else {
        None
    };
    let chars: Vec<char> = chars_of(path);
    if is_word(&chars, "~") {
        let below: Vec<String> = Vec::new();
        assert(below.deep_view() =~= seq![]);
        return match home {
            Some(home) => Place { root: Root::Variable(home), below },
            None => Place { root: Root::Here, below },
        };
    }
    let rest: Option<Vec<char>> = strip_start(&chars, "~/");
    match (rest, home) {
        (Some(rest), Some(home)) => {
            assert(rest.deep_view() =~= rest@);
            let rest: String = text_of(&rest);
            place(Root::Variable(home), rest.as_str())
        },
        _ => place(Root::Given, path),
    }
}

/// A configuration can be copied between machines without carrying an identity
/// along: the two are kept in different places wherever the environment says
/// where anything is kept.
pub proof fn secrets_are_kept_apart(env: Environment)
    requires
        env.windows ==> env.app_data || env.local_app_data,
        !env.windows ==> env.xdg_config_home || env.xdg_data_home || env.home,
    ensures
        config_place(env) != state_place(env),
        forall|a: Seq<char>, b: Seq<char>|
            #![trigger inside(config_place(env), a), inside(state_place(env), b)]
            inside(config_place(env), a) != inside(state_place(env), b),
{
    reveal_strlit(".config");
    reveal_strlit(".local/share");
    assert(".config"@.len() != ".local/share"@.len());
    let (config, state) = (config_place(env), state_place(env));
    assert(config.root != state.root || config.below[0] != state.below[0]);
    assert forall|a: Seq<char>, b: Seq<char>|
        #![trigger inside(config, a), inside(state, b)]
        inside(config, a) != inside(state, b) by {
        assert(inside(config, a).below[0] == config.below[0]);
        assert(inside(state, b).below[0] == state.below[0]);
    }
}

} // verus!
