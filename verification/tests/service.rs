//! Starting at login.

use smkvm::control::Role;
use smkvm::paths::{Environment, Place, Root, Variable};
use smkvm::service::{
    autostart_dir, base64, encoded_command, entry, install_context, install_script,
    installed_message, quote, read_answer, running_line, running_pid, shown_path, start_script,
    status_script, stop_process_script, stop_script, task_xml, uninstall_script, NAME,
};
use smkvm::status::Status;

#[test]
fn the_entry_runs_this_binary_without_a_terminal() {
    let text = entry("/opt/smkvm/smkvm");
    assert!(text.starts_with("[Desktop Entry]\n"));
    assert!(text.contains("Exec=/opt/smkvm/smkvm run --unattended\n"));
    assert!(text.contains("Terminal=false\n"));
    assert!(text.contains("NoDisplay=true\n"));
}

#[test]
fn the_task_runs_this_binary_headless_as_the_sid() {
    let xml = task_xml(r"C:\Tools & Co\smkvm.exe", false);
    assert!(xml.contains("<UserId>$sid</UserId>"));
    assert!(xml.contains("<RunLevel>HighestAvailable</RunLevel>"));
    assert!(xml.contains("<LogonType>InteractiveToken</LogonType>"));
    assert!(xml.contains(
        r"<Arguments>--headless &quot;C:\Tools &amp; Co\smkvm.exe&quot; run --unattended</Arguments>"
    ));
    assert!(!xml.contains("\"@"));
}

#[test]
fn limited_gives_up_the_elevation() {
    let xml = task_xml(r"C:\smkvm\smkvm.exe", true);
    assert!(xml.contains("<RunLevel>LeastPrivilege</RunLevel>"));
}

#[test]
fn base64_matches_the_standard_alphabet_and_padding() {
    assert_eq!(base64(b""), "");
    assert_eq!(base64(b"f"), "Zg==");
    assert_eq!(base64(b"fo"), "Zm8=");
    assert_eq!(base64(b"foo"), "Zm9v");
    assert_eq!(base64(b"foobar"), "Zm9vYmFy");
}

#[test]
fn a_script_is_handed_over_in_wide_characters() {
    assert_eq!(encoded_command("hi"), base64(&[b'h', 0, b'i', 0]));
    assert_eq!(encoded_command("\u{1F600}"), base64(&[0x3D, 0xD8, 0x00, 0xDE]));
}

#[test]
fn a_refusal_is_said_in_whichever_words_there_are() {
    assert_eq!(read_answer(true, "  done\n", "ignored"), Ok("done".to_string()));
    assert_eq!(
        read_answer(false, "out", " err "),
        Err("PowerShell refused: err".to_string())
    );
    assert_eq!(
        read_answer(false, " out ", "  "),
        Err("PowerShell refused: out".to_string())
    );
}

#[test]
fn a_quoted_text_reads_back_as_itself() {
    assert_eq!(quote("SMKVM"), "'SMKVM'");
    assert_eq!(quote("O'Brien"), "'O''Brien'");
}

#[test]
fn the_scripts_name_the_task() {
    assert_eq!(NAME, "SMKVM");
    for script in [uninstall_script(), start_script(), stop_script(), status_script()] {
        assert!(script.contains("'SMKVM'"), "{script}");
    }
    let script = install_script(r"C:\smkvm.exe", &Some("O'Brien".to_string()), true);
    assert!(script.contains("$who = 'O''Brien'\n"));
    assert!(script.contains(&task_xml(r"C:\smkvm.exe", true)));
    assert!(script.contains("Register-ScheduledTask -TaskName 'SMKVM' -Xml $xml -Force"));
    assert!(install_script(r"C:\smkvm.exe", &None, true).contains("$who = $null\n"));
    assert!(stop_process_script(42).contains("42"));
}

#[test]
fn whoever_installs_is_told_what_it_takes() {
    assert_eq!(install_context(true), "registering the task");
    assert!(install_context(false).contains("administrator prompt"));
    let said = installed_message("registered for me (S-1)", "smkvm.exe", false);
    assert!(said.starts_with("registered for me (S-1): SMKVM will start `smkvm.exe run` at login"));
}

#[test]
fn a_path_is_shown_without_the_verbatim_prefix() {
    assert_eq!(shown_path(r"\\?\C:\smkvm.exe"), r"C:\smkvm.exe");
    assert_eq!(shown_path(r"\\?\UNC\server\x"), r"\\?\UNC\server\x");
    assert_eq!(shown_path("/usr/bin/smkvm"), "/usr/bin/smkvm");
}

#[test]
fn the_entry_lies_where_the_session_looks() {
    let mut env = Environment {
        windows: false,
        app_data: false,
        local_app_data: false,
        xdg_config_home: false,
        xdg_data_home: false,
        home: true,
        user_profile: false,
    };
    assert_eq!(
        autostart_dir(&env),
        Place {
            root: Root::Variable(Variable::Home),
            below: vec![".config".to_string(), "autostart".to_string()],
        }
    );
    env.xdg_config_home = true;
    assert_eq!(
        autostart_dir(&env),
        Place {
            root: Root::Variable(Variable::XdgConfigHome),
            below: vec!["autostart".to_string()],
        }
    );
}

#[test]
fn a_daemon_is_running_by_its_own_account_and_only_while_it_is_there() {
    let report = Some(Status::new(Role::Server, "desk", Vec::new(), 1000, 42));
    assert_eq!(running_pid(&report, 1005, Some(true)), Some(42));
    assert_eq!(running_pid(&report, 1005, None), Some(42));
    assert_eq!(running_pid(&report, 1005, Some(false)), None, "the process has gone");
    assert_eq!(running_pid(&report, 1016, Some(true)), None, "the report is old");
    assert_eq!(running_pid(&None, 1005, Some(true)), None);
    assert_eq!(
        running_line(&report, 1005, "status.toml"),
        "running: desk is sharing its keyboard and mouse (pid 42), reported 5 s ago"
    );
    assert_eq!(
        running_line(&None, 1005, "status.toml"),
        "running: nothing (no recent report at status.toml)"
    );
}
