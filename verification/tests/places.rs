//! Where things are kept.

use smkvm::paths::{
    config_dir, config_file, default_name, expand_home, identity_file, log_file, peers_file,
    state_dir, status_file, Environment, Names, Place, Root, Variable,
};

fn unset(windows: bool) -> Environment {
    Environment {
        windows,
        app_data: false,
        local_app_data: false,
        xdg_config_home: false,
        xdg_data_home: false,
        home: false,
        user_profile: false,
    }
}

fn place(root: Root, below: &[&str]) -> Place {
    Place { root, below: below.iter().map(|s| s.to_string()).collect() }
}

#[test]
fn a_tilde_becomes_the_home_directory() {
    let mut env = unset(false);
    env.home = true;
    let home = Root::Variable(Variable::Home);
    assert_eq!(expand_home("~", &env), place(home, &[]));
    assert_eq!(expand_home("~/Downloads/SMKVM", &env), place(home, &["Downloads/SMKVM"]));
    env.home = false;
    env.user_profile = true;
    let profile = Root::Variable(Variable::UserProfile);
    assert_eq!(expand_home("~", &env), place(profile, &[]));
    assert_eq!(expand_home("~/in", &env), place(profile, &["in"]));
    assert_eq!(Variable::UserProfile.name(), "USERPROFILE");
}

#[test]
fn anything_else_is_left_alone() {
    let mut env = unset(false);
    env.home = true;
    assert_eq!(expand_home("/srv/in", &env), place(Root::Given, &["/srv/in"]));
    assert_eq!(expand_home("~someone/x", &env), place(Root::Given, &["~someone/x"]));
    assert_eq!(expand_home("~\\in", &env), place(Root::Given, &["~\\in"]));
    assert_eq!(expand_home("rel/ative", &env), place(Root::Given, &["rel/ative"]));
}

#[test]
fn with_no_home_a_tilde_is_here() {
    let env = unset(false);
    assert_eq!(expand_home("~", &env), place(Root::Here, &[]));
    assert_eq!(expand_home("~/x", &env), place(Root::Given, &["~/x"]));
}

#[test]
fn configuration_and_state_are_kept_apart() {
    let mut env = unset(false);
    assert_eq!(config_dir(&env), place(Root::Here, &["smkvm"]));
    env.home = true;
    let home = Root::Variable(Variable::Home);
    assert_eq!(config_file(&env), place(home, &[".config", "smkvm", "smkvm.toml"]));
    assert_eq!(identity_file(&env), place(home, &[".local/share", "smkvm", "device.toml"]));
    env.xdg_config_home = true;
    env.xdg_data_home = true;
    assert_eq!(
        config_dir(&env),
        place(Root::Variable(Variable::XdgConfigHome), &["smkvm"])
    );
    let data = Root::Variable(Variable::XdgDataHome);
    assert_eq!(peers_file(&env), place(data, &["smkvm", "peers.toml"]));
    assert_eq!(log_file(&env), place(data, &["smkvm", "smkvm.log"]));
    let mut env = unset(true);
    assert_eq!(state_dir(&env), place(Root::Here, &["smkvm"]));
    env.app_data = true;
    env.local_app_data = true;
    assert_eq!(config_dir(&env), place(Root::Variable(Variable::AppData), &["smkvm"]));
    assert_eq!(
        status_file(&env),
        place(Root::Variable(Variable::LocalAppData), &["smkvm", "status.toml"])
    );
}

#[test]
fn a_machine_is_called_by_the_first_name_there_is() {
    let names = |a: Option<&str>, b: Option<&str>, c: Option<&str>, d: Option<&str>| Names {
        given: a.map(str::to_string),
        computer: b.map(str::to_string),
        host: c.map(str::to_string),
        host_file: d.map(str::to_string),
    };
    assert_eq!(default_name(&names(Some("a"), Some("b"), None, None)), "a");
    assert_eq!(default_name(&names(None, Some("b"), Some("c"), None)), "b");
    assert_eq!(default_name(&names(None, None, None, Some(" desk\n"))), "desk");
    assert_eq!(default_name(&names(Some(""), Some("b"), None, None)), "smkvm");
    assert_eq!(default_name(&names(None, None, None, None)), "smkvm");
}
