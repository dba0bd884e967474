//! Starting when the person logs in, and being stopped and started by hand.
//!
//! A daemon that has to be started by hand after every reboot is one that is
//! not running when it is wanted. What "start at login" means differs by
//! platform, and each has a trap:
//!
//! On Windows the daemon has to run *in the interactive session* and, to be
//! able to type into any window, *elevated*. A scheduled task with an
//! interactive principal and "run with highest privileges" is the one
//! arrangement that has both, so that is what is registered.
//!
//! On Linux the daemon needs the session's display, which a systemd user
//! service does not reliably have. A desktop-autostart entry runs inside the
//! session with everything the session has, and the daemon reconnects for
//! ever on its own, so nothing more is needed.
//!
//! Everything here is text: what to register, what to ask the platform, and
//! what to tell the person. Running it is for whoever holds the platform.

use vstd::prelude::*;

use crate::bytes::add_le16;
use crate::control::Role;
use crate::files::unit_bytes;
use crate::paths::{Environment, Place, PlaceView, Root, Variable};
use crate::status::{since, Status};
use crate::text::{
    add_text, after_prefix, chars_of, decimal, decimal_of, strip_start, text_of, trim, trimmed, utf16,
    utf16_of,
};

verus! {

// --- base64 ---------------------------------------------------------------------

/// The letters, in the order of what they stand for.
pub open spec fn alphabet() -> Seq<char> {
    "ABCDEFGHIJKLMNOPQRSTUVWXYZabcdefghijklmnopqrstuvwxyz0123456789+/"@
}

/// What three bytes become, and what one or two are padded out to.
pub open spec fn base64_group(s: Seq<u8>) -> Seq<char> {
    let a = s[0] as int;
    let b = if s.len() > 1 {
        s[1] as int
    } else {
        0
    };
    let c = if s.len() > 2 {
        s[2] as int
    } else {
        0
    };
    seq![
        alphabet()[a / 4],
        alphabet()[a % 4 * 16 + b / 16],
        if s.len() > 1 {
            alphabet()[b % 16 * 4 + c / 64]
        } else {
            '='
        },
        if s.len() > 2 {
            alphabet()[c % 64]
        } else {
            '='
        },
    ]
}

/// Bytes in base64, with the standard alphabet and padding.
pub open spec fn base64_text(s: Seq<u8>) -> Seq<char>
    decreases s.len(),
{
    if s.len() == 0 {
        seq![]
    } else if s.len() <= 3 {
        base64_group(s)
    } else {
        base64_group(s.take(3)) + base64_text(s.skip(3))
    }
}

fn add_base64_group(out: &mut Vec<char>, letters: &Vec<char>, bytes: &[u8], from: usize, to: usize)
    requires
        from < to <= bytes@.len(),
        to - from <= 3,
        letters@ == alphabet(),
        letters@.len() == 64,
    ensures
        final(out)@ == old(out)@ + base64_group(bytes@.subrange(from as int, to as int)),
{
    let ghost before = out@;
    let ghost group = bytes@.subrange(from as int, to as int);
    let a: usize = bytes[from] as usize;
    let b: usize = if to - from > 1 {
        bytes[from + 1] as usize
    } else {
        0
    };
    let c: usize = if to - from > 2 {
        bytes[from + 2] as usize
    } else {
        0
    };
    out.push(letters[a / 4]);
    out.push(letters[a % 4 * 16 + b / 16]);
    out.push(if to - from > 1 { letters[b % 16 * 4 + c / 64] } else { '=' });
    out.push(if to - from > 2 { letters[c % 64] } else { '=' });
    assert(out@ =~= before + base64_group(group));
}

/// Bytes in base64, with the standard alphabet and padding.
pub fn base64(bytes: &[u8]) -> (r: String)
    ensures
        r@ == base64_text(bytes@),
{
    let letters: Vec<char> = chars_of(
        "ABCDEFGHIJKLMNOPQRSTUVWXYZabcdefghijklmnopqrstuvwxyz0123456789+/",
    );
    proof {
        reveal_strlit("ABCDEFGHIJKLMNOPQRSTUVWXYZabcdefghijklmnopqrstuvwxyz0123456789+/");
    }
    let len: usize = bytes.len();
    let mut out: Vec<char> = Vec::new();
    let mut i: usize = 0;
    proof {
        assert(bytes@.skip(0) =~= bytes@);
        assert(out@ + base64_text(bytes@) =~= base64_text(bytes@));
    }
    while len - i > 3
        invariant
            i <= len,
            len == bytes@.len(),
            letters@ == alphabet(),
            letters@.len() == 64,
            base64_text(bytes@) == out@ + base64_text(bytes@.skip(i as int)),
        decreases len - i,
    {
        let ghost rest = bytes@.skip(i as int);
        let ghost before = out@;
        add_base64_group(&mut out, &letters, bytes, i, i + 3);
        proof {
            assert(rest.take(3) =~= bytes@.subrange(i as int, i + 3));
            assert(rest.skip(3) =~= bytes@.skip(i + 3));
            assert(before + (base64_group(rest.take(3)) + base64_text(rest.skip(3))) =~= out@
                + base64_text(rest.skip(3)));
        }
        i += 3;
    }
    proof {
        assert(bytes@.skip(i as int) =~= bytes@.subrange(i as int, len as int));
        if i == len {
            assert(out@ + base64_text(bytes@.skip(i as int)) =~= out@);
        }
    }
    if i < len {
        add_base64_group(&mut out, &letters, bytes, i, len);
    }
    text_of(&out)
}

/// A script as PowerShell takes it on its command line: its UTF-16, in base64.
/// Quoting through two shells is what this avoids.
pub fn encoded_command(script: &str) -> (r: String)
    ensures
        r@ == base64_text(unit_bytes(utf16(script@))),
{
    let units: Vec<u16> = utf16_of(&chars_of(script));
    let mut bytes: Vec<u8> = Vec::new();
    let mut i: usize = 0;
    assert(units@.take(0) =~= seq![]);
    while i < units.len()
        invariant
            i <= units.len(),
            bytes@ == unit_bytes(units@.take(i as int)),
        decreases units.len() - i,
    {
        proof {
            assert(units@.take(i + 1).drop_last() =~= units@.take(i as int));
            assert(units@.take(i + 1).last() == units@[i as int]);
        }
        add_le16(&mut bytes, units[i]);
        i += 1;
    }
    assert(units@.take(i as int) =~= units@);
    base64(bytes.as_slice())
}

/// What a run of PowerShell came to: what it printed, or why it refused.
pub open spec fn powershell_answer(success: bool, stdout: Seq<char>, stderr: Seq<char>) -> Result<
    Seq<char>,
    Seq<char>,
> {
    if success {
        Ok(trim(stdout))
    } else {
        Err(
            "PowerShell refused: "@ + (if trim(stderr).len() == 0 {
                trim(stdout)
            } else {
                trim(stderr)
            }),
        )
    }
}

/// What a run of PowerShell came to.
pub fn read_answer(success: bool, stdout: &str, stderr: &str) -> (r: Result<String, String>)
    ensures
        match r {
            Ok(said) => powershell_answer(success, stdout@, stderr@) == Ok::<Seq<char>, Seq<char>>(
                said@,
            ),
            Err(why) => powershell_answer(success, stdout@, stderr@) == Err::<
                Seq<char>,
                Seq<char>,
            >(why@),
        },
{
    let said: Vec<char> = trimmed(&chars_of(stdout));
    if success {
        return Ok(text_of(&said));
    }
    let mut complaint: Vec<char> = trimmed(&chars_of(stderr));
    if complaint.len() == 0 {
        complaint = said;
    }
    let mut why: Vec<char> = chars_of("PowerShell refused: ");
    why.append(&mut complaint);
    Err(text_of(&why))
}

// --- putting text into other text -------------------------------------------------

/// What a character becomes inside a string for PowerShell.
pub open spec fn doubled(c: char) -> Seq<char> {
    if c == '\'' {
        "''"@
    } else {
        seq![c]
    }
}

/// What a character becomes inside XML.
pub open spec fn entity(c: char) -> Seq<char> {
    if c == '&' {
        "&amp;"@
    } else if c == '<' {
        "&lt;"@
    } else if c == '>' {
        "&gt;"@
    } else if c == '"' {
        "&quot;"@
    } else {
        seq![c]
    }
}

pub open spec fn doubled_text(s: Seq<char>) -> Seq<char>
    decreases s.len(),
{
    if s.len() == 0 {
        seq![]
    } else {
        doubled_text(s.drop_last()) + doubled(s.last())
    }
}

pub open spec fn entity_text(s: Seq<char>) -> Seq<char>
    decreases s.len(),
{
    if s.len() == 0 {
        seq![]
    } else {
        entity_text(s.drop_last()) + entity(s.last())
    }
}

/// A string for PowerShell to read back as exactly this text.
pub open spec fn quoted_text(s: Seq<char>) -> Seq<char> {
    "'"@ + doubled_text(s) + "'"@
}

fn quote_chars(s: &str) -> (r: Vec<char>)
    ensures
        r@ == quoted_text(s@),
{
    let chars: Vec<char> = chars_of(s);
    let mut r: Vec<char> = chars_of("'");
    let mut i: usize = 0;
    proof {
        assert(chars@.take(0) =~= seq![]);
        assert("'"@ + doubled_text(chars@.take(0)) =~= "'"@);
    }
    while i < chars.len()
        invariant
            i <= chars.len(),
            r@ == "'"@ + doubled_text(chars@.take(i as int)),
        decreases chars.len() - i,
    {
        let ghost before = r@;
        let c: char = chars[i];
        proof {
            assert(chars@.take(i + 1).drop_last() =~= chars@.take(i as int));
            assert(chars@.take(i + 1).last() == c);
        }
        if c == '\'' {
            add_text(&mut r, "''");
        } else {
            r.push(c);
        }
        assert(r@ =~= "'"@ + (doubled_text(chars@.take(i as int)) + doubled(c)));
        i += 1;
    }
    assert(chars@.take(i as int) =~= chars@);
    add_text(&mut r, "'");
    r
}

/// A string for PowerShell to read back as exactly this text.
pub fn quote(s: &str) -> (r: String)
    ensures
        r@ == quoted_text(s@),
{
    text_of(&quote_chars(s))
}

fn add_entities(out: &mut Vec<char>, s: &str)
    ensures
        final(out)@ == old(out)@ + entity_text(s@),
{
    let ghost start = out@;
    let chars: Vec<char> = chars_of(s);
    let mut i: usize = 0;
    proof {
        assert(chars@.take(0) =~= seq![]);
        assert(start + entity_text(chars@.take(0)) =~= start);
    }
    while i < chars.len()
        invariant
            i <= chars.len(),
            out@ == start + entity_text(chars@.take(i as int)),
        decreases chars.len() - i,
    {
        let c: char = chars[i];
        proof {
            assert(chars@.take(i + 1).drop_last() =~= chars@.take(i as int));
            assert(chars@.take(i + 1).last() == c);
        }
        if c == '&' {
            add_text(out, "&amp;");
        } else if c == '<' {
            add_text(out, "&lt;");
        } else if c == '>' {
            add_text(out, "&gt;");
        } else if c == '"' {
            add_text(out, "&quot;");
        } else {
            out.push(c);
        }
        assert(out@ =~= start + (entity_text(chars@.take(i as int)) + entity(c)));
        i += 1;
    }
    assert(chars@.take(i as int) =~= chars@);
}

// --- the scheduled task -------------------------------------------------------------

/// The name the task is registered under on Windows, and the file the
/// autostart entry is kept in on Linux.
pub const NAME: &'static str = "SMKVM";

/// The task up to the level it runs at, with `$sid` left for PowerShell to
/// fill in.
pub const TASK_START: &'static str = "<?xml version=\"1.0\" encoding=\"UTF-16\"?>
<Task version=\"1.4\" xmlns=\"http://schemas.microsoft.com/windows/2004/02/mit/task\">
  <RegistrationInfo>
    <Description>Share one keyboard and mouse across several machines</Description>
  </RegistrationInfo>
  <Triggers>
    <LogonTrigger>
      <Enabled>true</Enabled>
      <UserId>$sid</UserId>
    </LogonTrigger>
  </Triggers>
  <Principals>
    <Principal id=\"Author\">
      <UserId>$sid</UserId>
      <LogonType>InteractiveToken</LogonType>
      <RunLevel>";

/// The task from the level to the program.
pub const TASK_MIDDLE: &'static str = "</RunLevel>
    </Principal>
  </Principals>
  <Settings>
    <MultipleInstancesPolicy>IgnoreNew</MultipleInstancesPolicy>
    <DisallowStartIfOnBatteries>false</DisallowStartIfOnBatteries>
    <StopIfGoingOnBatteries>false</StopIfGoingOnBatteries>
    <AllowHardTerminate>true</AllowHardTerminate>
    <StartWhenAvailable>true</StartWhenAvailable>
    <RunOnlyIfNetworkAvailable>false</RunOnlyIfNetworkAvailable>
    <IdleSettings>
      <StopOnIdleEnd>false</StopOnIdleEnd>
      <RestartOnIdle>false</RestartOnIdle>
    </IdleSettings>
    <AllowStartOnDemand>true</AllowStartOnDemand>
    <Enabled>true</Enabled>
    <Hidden>false</Hidden>
    <RunOnlyIfIdle>false</RunOnlyIfIdle>
    <WakeToRun>false</WakeToRun>
    <ExecutionTimeLimit>PT0S</ExecutionTimeLimit>
    <Priority>5</Priority>
    <RestartOnFailure>
      <Interval>PT1M</Interval>
      <Count>5</Count>
    </RestartOnFailure>
  </Settings>
  <Actions Context=\"Author\">
    <Exec>
      <Command>conhost.exe</Command>
      <Arguments>--headless &quot;";

/// The task after the program.
pub const TASK_END: &'static str = "&quot; run --unattended</Arguments>
    </Exec>
  </Actions>
</Task>
";

pub open spec fn run_level(limited: bool) -> Seq<char> {
    if limited {
        "LeastPrivilege"@
    } else {
        "HighestAvailable"@
    }
}

pub open spec fn task_text(exe: Seq<char>, limited: bool) -> Seq<char> {
    TASK_START@ + run_level(limited) + TASK_MIDDLE@ + entity_text(exe) + TASK_END@
}

fn task_chars(exe: &str, limited: bool) -> (r: Vec<char>)
    ensures
        r@ == task_text(exe@, limited),
{
    let mut r: Vec<char> = chars_of(TASK_START);
    if limited {
        add_text(&mut r, "LeastPrivilege");
    } else {
        add_text(&mut r, "HighestAvailable");
    }
    add_text(&mut r, TASK_MIDDLE);
    add_entities(&mut r, exe);
    add_text(&mut r, TASK_END);
    r
}

/// The task, as the scheduler's own XML, with `$sid` left for PowerShell to
/// fill in.
///
/// Written out rather than built with the `New-ScheduledTask*` cmdlets because
/// those look the principal up by name, and on a machine whose account is a
/// cloud or domain one with no line to its directory the lookup fails although
/// the account logs in every day. The XML names the principal by SID, and
/// registering it that way is accepted with no lookup at all.
///
/// The action runs through a headless console host, so no console window
/// appears at login. A window with nothing in it looks like something to
/// close, and closing it kills the daemon.
pub fn task_xml(exe: &str, limited: bool) -> (r: String)
    ensures
        r@ == task_text(exe@, limited),
{
    text_of(&task_chars(exe, limited))
}

pub const INSTALL_START: &'static str = "$ErrorActionPreference = 'Stop'
$who = ";

/// The SID: by lookup when the machine can do one, and from the profile list
/// otherwise, which remembers every account that has logged in here whether or
/// not its directory is reachable today.
pub const INSTALL_MIDDLE: &'static str = "
if ($who) {
  try {
    $sid = (New-Object System.Security.Principal.NTAccount($who)).Translate([System.Security.Principal.SecurityIdentifier]).Value
  } catch {
    $short = ($who -split '\\\\')[-1]
    $sid = Get-ChildItem 'HKLM:\\SOFTWARE\\Microsoft\\Windows NT\\CurrentVersion\\ProfileList' |
      Where-Object { (Split-Path -Leaf ([string]$_.GetValue('ProfileImagePath'))) -ieq $short } |
      ForEach-Object { $_.PSChildName } | Select-Object -First 1
    if (-not $sid) { throw \"no account called $who has a profile on this machine\" }
  }
} else {
  $me = [System.Security.Principal.WindowsIdentity]::GetCurrent()
  $who = $me.Name
  $sid = $me.User.Value
}
$xml = @\"
";

pub const INSTALL_REGISTER: &'static str = "
\"@
Register-ScheduledTask -TaskName ";

pub const INSTALL_END: &'static str = " -Xml $xml -Force | Out-Null
\"registered for $who ($sid)\"
";

/// The script that registers the task. With no account named, it is the one
/// that runs the script.
pub open spec fn install_text(exe: Seq<char>, user: Option<Seq<char>>, limited: bool) -> Seq<char> {
    INSTALL_START@ + (match user {
        Some(user) => quoted_text(user),
        None => "$null"@,
    }) + INSTALL_MIDDLE@ + task_text(exe, limited) + INSTALL_REGISTER@ + quoted_text(NAME@)
        + INSTALL_END@
}

/// The script that registers a start at login. `user` is the account whose
/// login starts it, for the case where the account registering is not the one
/// sitting at the desk; `limited` gives up the elevation that lets it type into
/// administrator windows.
pub fn install_script(exe: &str, user: &Option<String>, limited: bool) -> (r: String)
    ensures
        r@ == install_text(exe@, user.deep_view(), limited),
{
    let mut r: Vec<char> = chars_of(INSTALL_START);
    match user {
        Some(user) => {
            let mut who: Vec<char> = quote_chars(user.as_str());
            r.append(&mut who);
        },
        None => {
            add_text(&mut r, "$null");
        },
    }
    add_text(&mut r, INSTALL_MIDDLE);
    let mut xml: Vec<char> = task_chars(exe, limited);
    r.append(&mut xml);
    add_text(&mut r, INSTALL_REGISTER);
    let mut name: Vec<char> = quote_chars(NAME);
    r.append(&mut name);
    add_text(&mut r, INSTALL_END);
    text_of(&r)
}

/// What stands before and after the quoted name of the task.
fn about_the_task(before: &str, after: &str) -> (r: String)
    ensures
        r@ == before@ + quoted_text(NAME@) + after@,
{
    let mut r: Vec<char> = chars_of(before);
    let mut name: Vec<char> = quote_chars(NAME);
    r.append(&mut name);
    add_text(&mut r, after);
    text_of(&r)
}

pub fn uninstall_script() -> (r: String)
    ensures
        r@ == "Unregister-ScheduledTask -TaskName "@ + quoted_text(NAME@)
            + " -Confirm:$false -ErrorAction SilentlyContinue"@,
{
    about_the_task(
        "Unregister-ScheduledTask -TaskName ",
        " -Confirm:$false -ErrorAction SilentlyContinue",
    )
}

pub fn start_script() -> (r: String)
    ensures
        r@ == "Start-ScheduledTask -TaskName "@ + quoted_text(NAME@),
{
    let r: String = about_the_task("Start-ScheduledTask -TaskName ", "");
    proof {
        reveal_strlit("");
        assert(r@ =~= "Start-ScheduledTask -TaskName "@ + quoted_text(NAME@));
    }
    r
}

/// Stopping the task ends the process, and with it the input hooks, which is
/// what gives the keyboard and mouse back on a server whose cursor was
/// elsewhere.
pub fn stop_script() -> (r: String)
    ensures
        r@ == "Stop-ScheduledTask -TaskName "@ + quoted_text(NAME@)
            + " -ErrorAction SilentlyContinue"@,
{
    about_the_task("Stop-ScheduledTask -TaskName ", " -ErrorAction SilentlyContinue")
}

/// A daemon started by hand is not the task's to stop, so it is stopped by its
/// pid.
pub fn stop_process_script(pid: u32) -> (r: String)
    ensures
        r@ == "Stop-Process -Id "@ + decimal(pid as nat) + " -Force -ErrorAction Stop"@,
{
    let mut r: Vec<char> = chars_of("Stop-Process -Id ");
    let mut number: Vec<char> = decimal_of(pid as u64);
    r.append(&mut number);
    add_text(&mut r, " -Force -ErrorAction Stop");
    text_of(&r)
}

pub const STATUS_END: &'static str = " -ErrorAction SilentlyContinue
if ($t) { \"task: \" + $t.State + \", runs as \" + $t.Principal.UserId + \" (\" + $t.Principal.RunLevel + \"), \" + ($t.Actions | % { $_.Execute + \" \" + $_.Arguments }) } else { \"task: not installed\" }";

pub fn status_script() -> (r: String)
    ensures
        r@ == "$t = Get-ScheduledTask -TaskName "@ + quoted_text(NAME@) + STATUS_END@,
{
    about_the_task("$t = Get-ScheduledTask -TaskName ", STATUS_END)
}

/// What a person is told when registering the task fails.
pub open spec fn install_trouble(limited: bool) -> Seq<char> {
    if limited {
        "registering the task"@
    } else {
        "registering the task to run with highest privileges, which needs an administrator; run this from an administrator prompt, or pass --limited and accept that windows running as administrator will not take input"@
    }
}

pub fn install_context(limited: bool) -> (r: String)
    ensures
        r@ == install_trouble(limited),
{
    if limited {
        "registering the task".to_owned()
    } else {
        "registering the task to run with highest privileges, which needs an administrator; run this from an administrator prompt, or pass --limited and accept that windows running as administrator will not take input".to_owned()
    }
}

pub open spec fn installed_text(said: Seq<char>, exe: Seq<char>, limited: bool) -> Seq<char> {
    said + ": "@ + NAME@ + " will start `"@ + exe
        + " run` at login, in the desktop session and without a console window"@ + (if limited {
        ""@
    } else {
        ", with highest privileges so it can type into any window"@
    }) + "."@
}

/// What a person is told once the task is registered.
pub fn installed_message(said: &str, exe: &str, limited: bool) -> (r: String)
    ensures
        r@ == installed_text(said@, exe@, limited),
{
    let mut r: Vec<char> = chars_of(said);
    add_text(&mut r, ": ");
    add_text(&mut r, NAME);
    add_text(&mut r, " will start `");
    add_text(&mut r, exe);
    add_text(&mut r, " run` at login, in the desktop session and without a console window");
    if limited {
        add_text(&mut r, "");
    } else {
        add_text(&mut r, ", with highest privileges so it can type into any window");
    }
    add_text(&mut r, ".");
    text_of(&r)
}

// --- the autostart entry --------------------------------------------------------------

pub open spec fn entry_text(exe: Seq<char>) -> Seq<char> {
    "[Desktop Entry]\nType=Application\nName=SMKVM\nComment=Share one keyboard and mouse across several machines\nExec="@
        + exe
        + " run --unattended\nTerminal=false\nNoDisplay=true\nX-GNOME-Autostart-enabled=true\n"@
}

/// The autostart entry, as the desktop reads it.
pub fn entry(exe: &str) -> (r: String)
    ensures
        r@ == entry_text(exe@),
{
    let mut r: Vec<char> = chars_of(
        "[Desktop Entry]\nType=Application\nName=SMKVM\nComment=Share one keyboard and mouse across several machines\nExec=",
    );
    add_text(&mut r, exe);
    add_text(
        &mut r,
        " run --unattended\nTerminal=false\nNoDisplay=true\nX-GNOME-Autostart-enabled=true\n",
    );
    text_of(&r)
}

/// Where autostart entries are kept.
pub open spec fn autostart_place(env: Environment) -> PlaceView {
    if env.xdg_config_home {
        PlaceView { root: Root::Variable(Variable::XdgConfigHome), below: seq!["autostart"@] }
    } else if env.home {
        PlaceView { root: Root::Variable(Variable::Home), below: seq![".config"@, "autostart"@] }
    } else {
        PlaceView { root: Root::Here, below: seq!["autostart"@] }
    }
}

/// Where autostart entries are kept.
pub fn autostart_dir(env: &Environment) -> (r: Place)
    ensures
        r.deep_view() == autostart_place(*env),
{
    let mut below: Vec<String> = Vec::new();
    let root: Root = if env.xdg_config_home {
        Root::Variable(Variable::XdgConfigHome)
    } else if env.home {
        below.push(".config".to_owned());
        Root::Variable(Variable::Home)
    } else {
        Root::Here
    };
    below.push("autostart".to_owned());
    let r: Place = Place { root, below };
    assert(r.deep_view() =~= autostart_place(*env));
    r
}

// --- this program, and the one that runs -------------------------------------------------

/// A path without the verbatim mark Windows puts before a drive, which the
/// scheduler and the person reading the task both do without.
pub open spec fn plain_path(path: Seq<char>) -> Seq<char> {
    match after_prefix(path, "\\\\?\\"@) {
        Some(rest) => if rest.len() > 1 && rest[0] as u32 <= 0x7F && rest[1] == ':' {
            rest
        } else {
            path
        },
        None => path,
    }
}

/// The path a registered start should run, from the canonical one.
pub fn shown_path(path: &str) -> (r: String)
    ensures
        r@ == plain_path(path@),
{
    let chars: Vec<char> = chars_of(path);
    match strip_start(&chars, "\\\\?\\") {
        Some(rest) => {
            assert(rest.deep_view() =~= rest@);
            if rest.len() > 1 && rest[0] as u32 <= 0x7F && rest[1] == ':' {
                text_of(&rest)
            } else {
                text_of(&chars)
            }
        },
        None => text_of(&chars),
    }
}

/// The daemon running on this machine, by its own account -- and only if that
/// process is still there, as far as anyone can tell. A report outlives the
/// daemon that wrote it by up to its refresh interval, which is exactly the
/// window in which someone stops a daemon and starts it again; trusting the
/// report alone there refuses the restart that was asked for.
pub fn running_pid(report: &Option<Status>, now: u64, alive: Option<bool>) -> (r: Option<u32>)
    ensures
        r == match *report {
            Some(status) => if since(now, status.updated) <= Status::FRESH_FOR && status.pid is Some
                && alive != Some(false) {
                status.pid
            } else {
                None
            },
            None => None,
        },
{
    match report {
        Some(status) => {
            let gone: bool = match alive {
                Some(there) => !there,
                None => false,
            };
            if status.is_current(now) && !gone {
                status.pid
            } else {
                None
            }
        },
        None => None,
    }
}

pub open spec fn role_text(role: Role) -> Seq<char> {
    match role {
        Role::Server => "sharing its keyboard and mouse"@,
        Role::Client => "receiving the cursor"@,
    }
}

pub open spec fn pid_text(pid: Option<u32>) -> Seq<char> {
    match pid {
        Some(pid) => decimal(pid as nat),
        None => "?"@,
    }
}

pub open spec fn running_text(report: Option<Status>, now: u64, path: Seq<char>) -> Seq<char> {
    match report {
        Some(status) => if since(now, status.updated) <= Status::FRESH_FOR {
            "running: "@ + status.name@ + " is "@ + role_text(status.role) + " (pid "@ + pid_text(
                status.pid,
            ) + "), reported "@ + decimal(since(now, status.updated) as nat) + " s ago"@
        } else {
            "running: nothing (no recent report at "@ + path + ")"@
        },
        None => "running: nothing (no recent report at "@ + path + ")"@,
    }
}

/// Say what is running, by the report at `path`.
pub fn running_line(report: &Option<Status>, now: u64, path: &str) -> (r: String)
    ensures
        r@ == running_text(*report, now, path@),
{
    if let Some(status) = report {
        if status.is_current(now) {
            let mut r: Vec<char> = chars_of("running: ");
            add_text(&mut r, status.name.as_str());
            add_text(&mut r, " is ");
            match status.role {
                Role::Server => add_text(&mut r, "sharing its keyboard and mouse"),
                Role::Client => add_text(&mut r, "receiving the cursor"),
            }
            add_text(&mut r, " (pid ");
            match status.pid {
                Some(pid) => {
                    let mut number: Vec<char> = decimal_of(pid as u64);
                    r.append(&mut number);
                },
                None => add_text(&mut r, "?"),
            }
            add_text(&mut r, "), reported ");
            let mut number: Vec<char> = decimal_of(status.age(now));
            r.append(&mut number);
            add_text(&mut r, " s ago");
            return text_of(&r);
        }
    }
    let mut r: Vec<char> = chars_of("running: nothing (no recent report at ");
    add_text(&mut r, path);
    add_text(&mut r, ")");
    text_of(&r)
}

} // verus!
