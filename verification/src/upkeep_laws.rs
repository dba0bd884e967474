//! The settings a machine starts with, where things are kept, how machines are
//! introduced to each other, and what is written for the system to run.

use vstd::prelude::*;

use crate::barrier::ImportView;
use crate::command::{
    doubled as doubled_wait, has_port, is_meant, Known, LONGEST_WAIT, SHORTEST_WAIT,
};
use crate::config::{fresh_config, migrated, rect_of};
use crate::control::{
    ClientControlView, HelloView, RejectView, Role, ServerControlView, SuspendReason,
};
use crate::hello::{client_introduced, server_introduced, VerdictView, PATIENCE};
use crate::landing::MAX_ENTRIES;
use crate::layout::{Point, Rect};
use crate::order::{dictionary, octets};
use crate::paths::{
    config_place, expanded, first_name, inside, state_place, variable_name, Environment, Names,
    PlaceView, Root, Variable,
};
use crate::platform::{in_the_way, InputDesktop, Outranked, HIGH_LEVEL};
use crate::proto::{FileView, MAX_CHUNK_DATA};
use crate::service::{
    alphabet, autostart_place, base64_text, doubled_text, entity_text, install_text,
    install_trouble, installed_text, plain_path, powershell_answer, quoted_text, running_text,
    task_text, INSTALL_END, INSTALL_MIDDLE, INSTALL_REGISTER, INSTALL_START, TASK_END, TASK_MIDDLE,
    TASK_START,
};
use crate::status::{since, Status};
use crate::survey::{
    begun, looked, named_before, next_wanted, ChildView, CopiedView, FoundView, SurveyView, Wanted,
};
use crate::text::{after_prefix, decimal, trim};
use crate::words_laws::{
    a_number_is_read_back, a_text_falls_apart_at_the_first, what_follows_and_what_precedes,
};

verus! {

// --- settings -----------------------------------------------------------------------

/// A machine with no settings of its own listens on no network that was not
/// named, on a port of its own, shares its clipboard and its files, and crosses
/// edges at once.
pub proof fn what_a_machine_starts_with(name: Seq<char>, role: Role)
    ensures
        ({
            let c = fresh_config(name, role);
            &&& c.version == 1
            &&& c.name == name
            &&& c.network.role == role
            &&& c.network.server is None
            &&& c.network.listen.len() == 0
            &&& c.network.port == 24810
            &&& c.network.prefer_lan
            &&& c.network.heartbeat_ms == 3000
            &&& c.behavior.switch_delay_ms == 0
            &&& c.behavior.switch_double_tap_ms == 0
            &&& c.behavior.release_keys_on_disconnect
            &&& c.clipboard.enabled
            &&& c.clipboard.formats == seq!["text"@, "html"@, "image"@, "files"@]
            &&& c.clipboard.max_bytes == 128 * 1024 * 1024
            &&& c.transfer.enabled
            &&& c.transfer.directory == "~/Downloads/SMKVM"@
            &&& c.transfer.prompt_over_bytes == 256 * 1024 * 1024
            &&& c.screen.len() == 0
        }),
{
}

/// What an installation that is replaced said comes across, and the rest is as a
/// machine starts: the port is always our own, a limit on the clipboard is never
/// lowered, and every screen comes as one that has yet to be paired.
pub proof fn what_comes_across(i: ImportView, k: int)
    ensures
        ({
            let c = migrated(i);
            &&& i.screen_name is Some ==> c.name == i.screen_name->0
            &&& i.screen_name is None ==> c.name == "smkvm"@
            &&& c.network.role == (if i.is_server {
                Role::Server
            } else {
                Role::Client
            })
            &&& c.network.server == i.server_host
            &&& c.network.port == 24810
            &&& c.network.listen.len() == 0
            &&& c.network.heartbeat_ms == 3000
            &&& i.switch_delay_ms is Some ==> c.behavior.switch_delay_ms == i.switch_delay_ms->0
            &&& i.switch_delay_ms is None ==> c.behavior.switch_delay_ms == 0
            &&& i.switch_double_tap_ms is Some ==> c.behavior.switch_double_tap_ms
                == i.switch_double_tap_ms->0
            &&& i.switch_double_tap_ms is None ==> c.behavior.switch_double_tap_ms == 0
            &&& c.behavior.release_keys_on_disconnect
            &&& c.clipboard.enabled == (i.clipboard != Some(false))
            &&& c.clipboard.max_bytes >= 128 * 1024 * 1024
            &&& i.clipboard_limit is Some && i.clipboard_limit->0 > 128 * 1024 * 1024
                ==> c.clipboard.max_bytes == i.clipboard_limit->0
            &&& i.clipboard_limit is None ==> c.clipboard.max_bytes == 128 * 1024 * 1024
            &&& c.transfer.enabled == (i.drag_drop != Some(false))
            &&& c.screen.len() == i.grid.len()
            &&& 0 <= k < i.grid.len() ==> {
                &&& c.screen[k].name == i.grid[k].name
                &&& c.screen[k].device is None
                &&& c.screen[k].grid == Some(seq![i.grid[k].column, i.grid[k].row])
                &&& c.screen[k].monitor.len() == 0
            }
        }),
{
}

/// The four numbers of a place are its position and then its size.
pub proof fn the_numbers_of_a_place(x: i32, y: i32, w: i32, h: i32)
    ensures
        rect_of(seq![x, y, w, h]) == (Rect { x, y, w, h }),
{
}

/// How long ago something was: the difference, and nothing by a clock that went
/// back.
pub proof fn how_long_ago(now: u64, then: u64)
    ensures
        now >= then ==> since(now, then) + then == now,
        now < then ==> since(now, then) == 0,
{
}

/// A position is in a rectangle if it is not beyond any of its sides; and what is
/// nearest to one outside is on the side it is beyond.
pub proof fn what_is_in_a_rectangle(r: Rect, p: Point)
    requires
        r.proper(),
    ensures
        r.has(p) <==> r.x <= p.x && p.x <= r.x + r.w - 1 && r.y <= p.y && p.y <= r.y + r.h - 1,
        r.has(r.nearest(p)),
        r.has(p) ==> r.nearest(p) == p,
        p.x < r.x ==> r.nearest(p).x == r.x,
        p.x >= r.x + r.w ==> r.nearest(p).x == r.x + r.w - 1,
        p.y < r.y ==> r.nearest(p).y == r.y,
        p.y >= r.y + r.h ==> r.nearest(p).y == r.y + r.h - 1,
        r.x <= p.x < r.x + r.w ==> r.nearest(p).x == p.x,
        r.y <= p.y < r.y + r.h ==> r.nearest(p).y == p.y,
        -1 <= 2 * (r.middle().x - r.x) - r.w <= 0,
        -1 <= 2 * (r.middle().y - r.y) - r.h <= 0,
{
}

// --- what a person types -----------------------------------------------------------------

/// A host comes with a port when digits that make one follow its only colon.
pub proof fn when_a_host_has_a_port(host: Seq<char>, n: nat, rest: Seq<char>)
    requires
        !host.contains(':'),
    ensures
        !has_port(host),
        n <= 65535 ==> has_port(host + seq![':'] + decimal(n)),
        n > 65535 ==> !has_port(host + seq![':'] + decimal(n)),
        !has_port(host + seq![':']),
        rest.contains(':') ==> !has_port(host + seq![':'] + rest),
{
    let none = Seq::<char>::empty();
    a_text_falls_apart_at_the_first(host, ':', decimal(n));
    a_text_falls_apart_at_the_first(host, ':', none);
    assert(host + seq![':'] + none =~= host + seq![':']);
    a_text_falls_apart_at_the_first(host, ':', rest);
    a_number_is_read_back(n, 65535, none, 0);
    crate::text::decimal_spells_the_number(n);
    let d = decimal(n);
    if d.contains(':') {
        let j = choose|j: int| 0 <= j < d.len() && d[j] == ':';
        assert(crate::text::is_digit(d[j]));
    }
    a_text_falls_apart_at_the_first(d, ':', none);
    if rest.contains(':') {
        crate::text::first_at_finds(rest, ':');
        let k = choose|k: int| 0 <= k < rest.len() && rest[k] == ':';
        assert(crate::text::first_at(rest, ':') <= k);
    }
}

/// A machine is meant by all of its name, or by the beginning of what it is known
/// by.
pub proof fn who_is_meant(known: Known, start: Seq<char>, rest: Seq<char>)
    ensures
        is_meant(known, known.name@),
        known.hex@ == start + rest ==> is_meant(known, start),
        is_meant(known, start) ==> known.name@ == start || exists|more: Seq<char>|
            known.hex@ == start + more,
{
    what_follows_and_what_precedes(start, rest, known.hex@, ':');
    if after_prefix(known.hex@, start) is Some {
        assert(known.hex@ == start + after_prefix(known.hex@, start)->0);
    }
}

/// Each wait is twice the last, from a quarter of a second to ten.
pub proof fn each_wait_is_twice_the_last(wait: u64)
    requires
        wait <= 10_000,
    ensures
        SHORTEST_WAIT == 250,
        LONGEST_WAIT == 10_000,
        wait <= 5_000 ==> doubled_wait(wait) == 2 * wait,
        wait > 5_000 ==> doubled_wait(wait) == 10_000,
{
}

// --- introductions --------------------------------------------------------------------------

/// A server that speaks our version is taken at its word; one that speaks another
/// is refused, with both versions; one that refuses us is quoted; and one that
/// says anything else first has not introduced itself.
pub proof fn how_a_server_is_judged(theirs: HelloView, ours: u32, a: u32, b: u32, why: Seq<char>)
    ensures
        theirs.proto == ours ==> server_introduced(ServerControlView::Hello(theirs), ours) == Ok::<
            HelloView,
            Seq<char>,
        >(theirs),
        theirs.proto != ours ==> server_introduced(ServerControlView::Hello(theirs), ours) == Err::<
            HelloView,
            Seq<char>,
        >(
            "the server"@ + " speaks protocol version "@ + decimal(theirs.proto as nat)
                + ", this build speaks "@ + decimal(ours as nat) + "; update the older one"@,
        ),
        server_introduced(
            ServerControlView::Rejected {
                reason: RejectView::ProtocolVersion { theirs: a, ours: b },
            },
            ours,
        ) == Err::<HelloView, Seq<char>>(
            "the server refused: it"@ + " speaks protocol version "@ + decimal(a as nat)
                + ", this build speaks "@ + decimal(b as nat) + "; update the older one"@,
        ),
        server_introduced(ServerControlView::Rejected { reason: RejectView::Other(why) }, ours)
            == Err::<HelloView, Seq<char>>("the server refused: "@ + why),
        server_introduced(ServerControlView::Leave, ours) is Err,
        server_introduced(ServerControlView::Ping { id: a }, ours) is Err,
        PATIENCE == 5,
{
}

/// A machine that speaks our version is welcome; one that speaks another is told
/// both versions, its own first, before the link is closed; and one that says
/// anything else first is hung up on.
pub proof fn how_a_client_is_judged(theirs: HelloView, ours: u32, id: u32)
    ensures
        theirs.proto == ours ==> client_introduced(ClientControlView::Hello(theirs), ours)
            == VerdictView::Welcome(theirs),
        theirs.proto != ours ==> ({
            let verdict = client_introduced(ClientControlView::Hello(theirs), ours);
            &&& verdict is TurnAway
            &&& verdict->reply == (ServerControlView::Rejected {
                reason: RejectView::ProtocolVersion { theirs: theirs.proto, ours },
            })
            &&& verdict->why == theirs.name + " speaks protocol version "@ + decimal(
                theirs.proto as nat,
            ) + ", this build speaks "@ + decimal(ours as nat) + "; update the older one"@
        }),
        client_introduced(ClientControlView::Ping { id }, ours) is HangUp,
        client_introduced(ClientControlView::Resumed, ours) is HangUp,
        client_introduced(ClientControlView::Goodbye, ours) is HangUp,
{
}

// --- what is in the way ------------------------------------------------------------------------

pub open spec fn held_up_by(found: Option<(SuspendReason, Seq<char>)>, why: SuspendReason) -> bool {
    match found {
        Some((reason, told)) => reason == why,
        None => false,
    }
}

/// Input that goes to another desktop is held up by that, whatever else is so; a
/// program in front that outranks this one holds it up on our own; and without
/// either it is held up only where the system will not take it.
pub proof fn what_holds_input_up(name: String, front: Option<Outranked>, can_inject: bool)
    ensures
        held_up_by(
            in_the_way(InputDesktop::Elsewhere(name), front, can_inject),
            SuspendReason::SecureDesktop,
        ),
        held_up_by(
            in_the_way(InputDesktop::OutOfReach, front, can_inject),
            SuspendReason::SecureDesktop,
        ),
        front is Some ==> held_up_by(
            in_the_way(InputDesktop::Ours, front, can_inject),
            SuspendReason::Elevated,
        ),
        front is None && !can_inject ==> held_up_by(
            in_the_way(InputDesktop::Ours, front, can_inject),
            SuspendReason::Other,
        ),
        front is None && can_inject ==> in_the_way(InputDesktop::Ours, front, can_inject) is None,
        HIGH_LEVEL == 0x3000,
{
}

// --- where things are kept -----------------------------------------------------------------------

/// Settings and secrets are kept where the system keeps such things: under their
/// variables if those are set, below the home directory if not, and here if there
/// is none.
pub proof fn where_things_are_kept(env: Environment)
    ensures
        env.windows && env.app_data ==> config_place(env) == (PlaceView {
            root: Root::Variable(Variable::AppData),
            below: seq!["smkvm"@],
        }),
        env.windows && env.local_app_data ==> state_place(env) == (PlaceView {
            root: Root::Variable(Variable::LocalAppData),
            below: seq!["smkvm"@],
        }),
        !env.windows && env.xdg_config_home ==> config_place(env) == (PlaceView {
            root: Root::Variable(Variable::XdgConfigHome),
            below: seq!["smkvm"@],
        }),
        !env.windows && env.xdg_data_home ==> state_place(env) == (PlaceView {
            root: Root::Variable(Variable::XdgDataHome),
            below: seq!["smkvm"@],
        }),
        !env.windows && !env.xdg_config_home && env.home ==> config_place(env) == (PlaceView {
            root: Root::Variable(Variable::Home),
            below: seq![".config"@, "smkvm"@],
        }),
        !env.windows && !env.xdg_data_home && env.home ==> state_place(env) == (PlaceView {
            root: Root::Variable(Variable::Home),
            below: seq![".local/share"@, "smkvm"@],
        }),
        (if env.windows {
            !env.app_data
        } else {
            !env.xdg_config_home && !env.home
        }) ==> config_place(env) == (PlaceView { root: Root::Here, below: seq!["smkvm"@] }),
        (if env.windows {
            !env.local_app_data
        } else {
            !env.xdg_data_home && !env.home
        }) ==> state_place(env) == (PlaceView { root: Root::Here, below: seq!["smkvm"@] }),
        env.xdg_config_home ==> autostart_place(env) == (PlaceView {
            root: Root::Variable(Variable::XdgConfigHome),
            below: seq!["autostart"@],
        }),
        !env.xdg_config_home && env.home ==> autostart_place(env) == (PlaceView {
            root: Root::Variable(Variable::Home),
            below: seq![".config"@, "autostart"@],
        }),
        variable_name(Variable::AppData) == "APPDATA"@,
        variable_name(Variable::LocalAppData) == "LOCALAPPDATA"@,
        variable_name(Variable::XdgConfigHome) == "XDG_CONFIG_HOME"@,
        variable_name(Variable::XdgDataHome) == "XDG_DATA_HOME"@,
        variable_name(Variable::Home) == "HOME"@,
        variable_name(Variable::UserProfile) == "USERPROFILE"@,
{
}

/// Something in a place is the place and then its name.
pub proof fn what_is_inside_a_place(place: PlaceView, name: Seq<char>)
    ensures
        inside(place, name).root == place.root,
        inside(place, name).below == place.below.push(name),
{
}

/// A path that begins at the tilde begins at the home directory, the user's own
/// where there are two; any other is taken as it is, another person's tilde
/// among them.
pub proof fn what_the_tilde_stands_for(rest: Seq<char>, path: Seq<char>, env: Environment)
    ensures
        env.home ==> expanded(seq!['~', '/'] + rest, env) == (PlaceView {
            root: Root::Variable(Variable::Home),
            below: seq![rest],
        }),
        env.home ==> expanded(seq!['~'], env) == (PlaceView {
            root: Root::Variable(Variable::Home),
            below: seq![],
        }),
        !env.home && env.user_profile ==> expanded(seq!['~', '/'] + rest, env) == (PlaceView {
            root: Root::Variable(Variable::UserProfile),
            below: seq![rest],
        }),
        path.len() == 0 || path[0] != '~' ==> expanded(path, env) == (PlaceView {
            root: Root::Given,
            below: seq![path],
        }),
        path.len() > 1 && path[1] != '/' ==> expanded(path, env) == (PlaceView {
            root: Root::Given,
            below: seq![path],
        }),
{
    reveal_strlit("~");
    reveal_strlit("~/");
    assert("~"@ =~= seq!['~']);
    assert("~/"@ =~= seq!['~', '/']);
    let whole = seq!['~', '/'] + rest;
    assert(whole != "~"@) by {
        assert(whole.len() >= 2);
    }
    what_follows_and_what_precedes("~/"@, rest, path, ':');
    if after_prefix(path, "~/"@) is Some {
        assert(path == "~/"@ + after_prefix(path, "~/"@)->0);
        assert(path[0] == '~' && path[1] == '/');
    }
}

/// The first of the names that is there is the one.
pub proof fn which_name_comes_first(names: Names)
    ensures
        names.given is Some ==> first_name(names) == names.given->0@,
        names.given is None && names.computer is Some ==> first_name(names) == names.computer->0@,
        names.given is None && names.computer is None && names.host is Some ==> first_name(names)
            == names.host->0@,
        names.given is None && names.computer is None && names.host is None && names.host_file
            is Some ==> first_name(names) == trim(names.host_file->0@),
{
}

// --- what is written for the system -------------------------------------------------------------

/// Three bytes are four letters, the number they make in base sixty-four; two and
/// one are three and two letters, filled up.
pub proof fn how_bytes_are_spelled(a: u8, b: u8, c: u8, rest: Seq<u8>)
    ensures
        ({
            let letters = "ABCDEFGHIJKLMNOPQRSTUVWXYZabcdefghijklmnopqrstuvwxyz0123456789+/"@;
            let n = 0x1_0000 * a + 0x100 * b + c;
            &&& base64_text(seq![a, b, c]) == seq![
                letters[n / 0x4_0000],
                letters[n / 0x1000 % 0x40],
                letters[n / 0x40 % 0x40],
                letters[n % 0x40],
            ]
            &&& base64_text(seq![a, b]) == seq![
                letters[(n - c) / 0x4_0000],
                letters[(n - c) / 0x1000 % 0x40],
                letters[(n - c) / 0x40 % 0x40],
                '=',
            ]
            &&& base64_text(seq![a]) == seq![
                letters[(0x1_0000 * a) / 0x4_0000],
                letters[(0x1_0000 * a) / 0x1000 % 0x40],
                '=',
                '=',
            ]
            &&& rest.len() > 0 ==> base64_text(seq![a, b, c] + rest) == base64_text(seq![a, b, c])
                + base64_text(rest)
            &&& base64_text(Seq::empty()).len() == 0
        }),
{
    in_base_sixty_four(a, b, c);
    in_base_sixty_four(a, b, 0);
    in_base_sixty_four(a, 0, 0);
    if rest.len() > 0 {
        let whole = seq![a, b, c] + rest;
        assert(whole.take(3) =~= seq![a, b, c]);
        assert(whole.skip(3) =~= rest);
    }
}

proof fn quotient(n: int, d: int, q: int, r: int)
    by (nonlinear_arith)
    requires
        d > 0,
        0 <= r < d,
        n == d * q + r,
    ensures
        n / d == q,
        n % d == r,
{
}

proof fn in_base_sixty_four(a: u8, b: u8, c: u8)
    ensures
        ({
            let n = 0x1_0000 * a + 0x100 * b + c;
            &&& n / 0x4_0000 == a as int / 4
            &&& n / 0x1000 % 0x40 == a as int % 4 * 16 + b as int / 16
            &&& n / 0x40 % 0x40 == b as int % 16 * 4 + c as int / 64
            &&& n % 0x40 == c as int % 64
        }),
{
    let n = 0x1_0000 * a + 0x100 * b + c;
    let first = a as int / 4;
    let second = a as int % 4 * 16 + b as int / 16;
    let third = b as int % 16 * 4 + c as int / 64;
    let fourth = c as int % 64;
    assert(n == 0x4_0000 * first + 0x1000 * second + 0x40 * third + fourth);
    quotient(n, 0x4_0000, first, 0x1000 * second + 0x40 * third + fourth);
    quotient(n, 0x1000, 0x40 * first + second, 0x40 * third + fourth);
    quotient(0x40 * first + second, 0x40, first, second);
    quotient(n, 0x40, 0x1000 * first + 0x40 * second + third, fourth);
    quotient(0x1000 * first + 0x40 * second + third, 0x40, 0x40 * first + second, third);
}

/// The letters of base sixty-four: capitals, small letters, digits, and two more.
pub proof fn the_letters_in_their_order(i: int)
    ensures
        alphabet().len() == 64,
        0 <= i < 26 ==> alphabet()[i] as int == 'A' as int + i,
        26 <= i < 52 ==> alphabet()[i] as int == 'a' as int + (i - 26),
        52 <= i < 62 ==> alphabet()[i] as int == '0' as int + (i - 52),
        alphabet()[62] == '+',
        alphabet()[63] == '/',
{
    reveal_strlit("ABCDEFGHIJKLMNOPQRSTUVWXYZabcdefghijklmnopqrstuvwxyz0123456789+/");
}

/// In a string for PowerShell an apostrophe is written twice and everything else
/// as it is; and in XML the four characters that mean something there are written
/// by name.
pub proof fn how_a_text_is_put_into_another(s: Seq<char>, c: char)
    ensures
        quoted_text(s) == seq!['\''] + doubled_text(s) + seq!['\''],
        doubled_text(Seq::empty()).len() == 0,
        entity_text(Seq::empty()).len() == 0,
        c != '\'' ==> doubled_text(s.push(c)) == doubled_text(s).push(c),
        doubled_text(s.push('\'')) == doubled_text(s).push('\'').push('\''),
        c != '&' && c != '<' && c != '>' && c != '"' ==> entity_text(s.push(c)) == entity_text(
            s,
        ).push(c),
        entity_text(s.push('&')) == entity_text(s) + "&amp;"@,
        entity_text(s.push('<')) == entity_text(s) + "&lt;"@,
        entity_text(s.push('>')) == entity_text(s) + "&gt;"@,
        entity_text(s.push('"')) == entity_text(s) + "&quot;"@,
{
    reveal_strlit("'");
    reveal_strlit("''");
    assert("'"@ =~= seq!['\'']);
    assert("''"@ =~= seq!['\'', '\'']);
    assert(s.push(c).drop_last() =~= s);
    assert(s.push('\'').drop_last() =~= s);
    assert(s.push('&').drop_last() =~= s);
    assert(s.push('<').drop_last() =~= s);
    assert(s.push('>').drop_last() =~= s);
    assert(s.push('"').drop_last() =~= s);
    assert(doubled_text(s) + seq!['\'', '\''] =~= doubled_text(s).push('\'').push('\''));
    assert(doubled_text(s) + seq![c] =~= doubled_text(s).push(c));
    assert(entity_text(s) + seq![c] =~= entity_text(s).push(c));
}

/// What PowerShell printed is its answer; where it refused, what it complained of
/// is, or what it printed if it did not complain.
pub proof fn what_powershell_answered(out: Seq<char>, err: Seq<char>)
    ensures
        powershell_answer(true, out, err) == Ok::<Seq<char>, Seq<char>>(trim(out)),
        trim(err).len() > 0 ==> powershell_answer(false, out, err) == Err::<Seq<char>, Seq<char>>(
            "PowerShell refused: "@ + trim(err),
        ),
        trim(err).len() == 0 ==> powershell_answer(false, out, err) == Err::<Seq<char>, Seq<char>>(
            "PowerShell refused: "@ + trim(out),
        ),
{
}

/// The mark before a drive is taken off a path, and no other path is changed.
pub proof fn a_path_without_its_mark(drive: char, rest: Seq<char>, path: Seq<char>)
    requires
        (drive as u32) < 128,
    ensures
        plain_path(seq!['\\', '\\', '?', '\\', drive, ':'] + rest) == seq![drive, ':'] + rest,
        path.len() == 0 || path[0] != '\\' ==> plain_path(path) == path,
{
    reveal_strlit("\\\\?\\");
    let mark = "\\\\?\\"@;
    assert(mark =~= seq!['\\', '\\', '?', '\\']);
    let tail = seq![drive, ':'] + rest;
    assert(seq!['\\', '\\', '?', '\\', drive, ':'] + rest =~= mark + tail);
    what_follows_and_what_precedes(mark, tail, path, ':');
    assert(tail[0] == drive && tail[1] == ':');
    if after_prefix(path, mark) is Some {
        assert(path[0] == '\\');
    }
}

// --- what is copied ------------------------------------------------------------------------------

/// What was copied is looked at in its order, each under its own name.
pub proof fn what_was_copied_is_looked_at_in_order(copied: Seq<CopiedView>, i: int)
    requires
        0 <= i < copied.len(),
    ensures
        ({
            let s = begun(copied);
            let next = s.waiting[s.waiting.len() - 1 - i];
            &&& s.files.len() == 0 && s.places.len() == 0
            &&& s.waiting.len() == copied.len()
            &&& next.place == copied[i].place
            &&& copied[i].name is Some && copied[i].name->0.len() > 0 ==> next.relative
                == copied[i].name
            &&& copied[i].name is None || copied[i].name->0.len() == 0 ==> next.relative is None
        }),
{
}

/// A file is entered under its path, with its size and where it is; a folder as a
/// folder of no size; anything else is passed over; and what is in a folder is
/// looked at next.
pub proof fn what_is_found_is_entered(s: SurveyView, bytes: u64, children: Seq<ChildView>, path: Seq<char>)
    requires
        s.waiting.len() > 0,
        s.waiting[s.waiting.len() - 1].relative == Some(path),
        s.files.len() < 20_000,
    ensures
        ({
            let next = s.waiting[s.waiting.len() - 1];
            let file = looked(s, FoundView::File { bytes });
            let folder = looked(s, FoundView::Folder { children });
            &&& next_wanted(s) == Wanted::Look(next.place)
            &&& file.files == s.files.push(FileView { path, bytes, is_dir: false })
            &&& file.places == s.places.push(next.place)
            &&& file.waiting == s.waiting.drop_last()
            &&& folder.files == s.files.push(FileView { path, bytes: 0, is_dir: true })
            &&& folder.places == s.places.push(next.place)
            &&& folder.waiting.len() == s.waiting.len() - 1 + children.len()
            &&& folder.waiting.take(s.waiting.len() - 1) == s.waiting.drop_last()
            &&& looked(s, FoundView::Other) == looked(s, FoundView::Link)
            &&& looked(s, FoundView::Other).files == s.files
            &&& looked(s, FoundView::Other).waiting == s.waiting.drop_last()
        }),
{
    crate::survey::by_name_is_in_order(children);
    let folder = looked(s, FoundView::Folder { children });
    assert(folder.waiting.take(s.waiting.len() - 1) =~= s.waiting.drop_last());
}

/// A walk ends when nothing is left to look at, when something has no name, and
/// when there is more than one copy may carry.
pub proof fn when_a_walk_ends(s: SurveyView)
    ensures
        MAX_ENTRIES == 20_000,
        MAX_CHUNK_DATA == 65536,
        s.waiting.len() == 0 ==> next_wanted(s) == Wanted::Nothing,
        s.waiting.len() > 0 && s.waiting[s.waiting.len() - 1].relative is None ==> next_wanted(s)
            == Wanted::Nameless(s.waiting[s.waiting.len() - 1].place),
        s.waiting.len() > 0 && s.waiting[s.waiting.len() - 1].relative is Some && s.files.len()
            >= 20_000 ==> next_wanted(s) == Wanted::TooMany,
{
}

// --- what is said -----------------------------------------------------------------------

/// What else comes across is as a machine starts with it, and a limit below the
/// one it starts with is raised to it.
pub proof fn what_stays_as_it_starts(i: ImportView)
    ensures
        ({
            let c = migrated(i);
            &&& c.version == 1
            &&& c.network.prefer_lan
            &&& c.clipboard.formats == seq!["text"@, "html"@, "image"@, "files"@]
            &&& i.clipboard_limit is Some && i.clipboard_limit->0 <= 128 * 1024 * 1024
                ==> c.clipboard.max_bytes == 128 * 1024 * 1024
            &&& c.transfer.directory == "~/Downloads/SMKVM"@
            &&& c.transfer.prompt_over_bytes == 256 * 1024 * 1024
        }),
{
}

/// Without a home the tilde is here, and a path below it stays as it was given.
pub proof fn where_there_is_no_home(rest: Seq<char>, env: Environment, names: Names)
    requires
        !env.home,
    ensures
        !env.user_profile ==> expanded(seq!['~'], env) == (PlaceView {
            root: Root::Here,
            below: seq![],
        }),
        !env.user_profile ==> expanded(seq!['~', '/'] + rest, env) == (PlaceView {
            root: Root::Given,
            below: seq![seq!['~', '/'] + rest],
        }),
        env.user_profile ==> expanded(seq!['~'], env) == (PlaceView {
            root: Root::Variable(Variable::UserProfile),
            below: seq![],
        }),
        !env.xdg_config_home ==> autostart_place(env) == (PlaceView {
            root: Root::Here,
            below: seq!["autostart"@],
        }),
        names.given is None && names.computer is None && names.host is None && names.host_file
            is None ==> first_name(names).len() == 0,
{
    reveal_strlit("~");
    reveal_strlit("~/");
    assert("~"@ =~= seq!['~']);
    assert("~/"@ =~= seq!['~', '/']);
    assert((seq!['~', '/'] + rest).len() != "~"@.len());
}

/// Only the mark before a drive is taken off a path: what it stands before
/// otherwise needs it.
pub proof fn a_path_that_keeps_its_mark(rest: Seq<char>)
    ensures
        rest.len() < 2 || rest[1] != ':' || rest[0] as u32 > 127 ==> plain_path(
            seq!['\\', '\\', '?', '\\'] + rest,
        ) == seq!['\\', '\\', '?', '\\'] + rest,
{
    reveal_strlit("\\\\?\\");
    let mark = seq!['\\', '\\', '?', '\\'];
    assert("\\\\?\\"@ =~= mark);
    what_follows_and_what_precedes(mark, rest, mark + rest, ':');
}

/// What a person is told of the daemon: what it does, under which number, and how
/// long ago it said so; or that nothing was heard from one for too long.
pub proof fn what_is_said_of_the_daemon(status: Status, now: u64, path: Seq<char>)
    ensures
        now - status.updated > 15 ==> running_text(Some(status), now, path) == running_text(
            None,
            now,
            path,
        ),
        running_text(None, now, path) == "running: nothing (no recent report at "@ + path + ")"@,
        now - status.updated <= 15 ==> ({
            let doing = match status.role {
                Role::Server => "sharing its keyboard and mouse"@,
                Role::Client => "receiving the cursor"@,
            };
            let pid = match status.pid {
                Some(pid) => decimal(pid as nat),
                None => "?"@,
            };
            let ago: int = if now >= status.updated {
                now - status.updated
            } else {
                0
            };
            running_text(Some(status), now, path) == "running: "@ + status.name@ + " is "@ + doing
                + " (pid "@ + pid + "), reported "@ + decimal(ago as nat) + " s ago"@
        }),
{
}

/// The task runs the program with as much or as little as was asked for, and its
/// path is written so that it can stand in the description. It is registered for
/// the one who was named, or for nobody in particular.
pub proof fn what_is_registered(exe: Seq<char>, user: Seq<char>, said: Seq<char>, limited: bool)
    ensures
        task_text(exe, true) == TASK_START@ + "LeastPrivilege"@ + TASK_MIDDLE@ + entity_text(exe)
            + TASK_END@,
        task_text(exe, false) == TASK_START@ + "HighestAvailable"@ + TASK_MIDDLE@ + entity_text(exe)
            + TASK_END@,
        install_text(exe, Some(user), limited) == INSTALL_START@ + quoted_text(user)
            + INSTALL_MIDDLE@ + task_text(exe, limited) + INSTALL_REGISTER@ + quoted_text("SMKVM"@)
            + INSTALL_END@,
        install_text(exe, None, limited) == INSTALL_START@ + "$null"@ + INSTALL_MIDDLE@ + task_text(
            exe,
            limited,
        ) + INSTALL_REGISTER@ + quoted_text("SMKVM"@) + INSTALL_END@,
        installed_text(said, exe, true) == said + ": "@ + "SMKVM"@ + " will start `"@ + exe
            + " run` at login, in the desktop session and without a console window"@ + "."@,
        installed_text(said, exe, false) == said + ": "@ + "SMKVM"@ + " will start `"@ + exe
            + " run` at login, in the desktop session and without a console window"@
            + ", with highest privileges so it can type into any window"@ + "."@,
        install_trouble(true) == "registering the task"@,
        install_trouble(false) != install_trouble(true),
{
    reveal_strlit("");
    let text = said + ": "@ + "SMKVM"@ + " will start `"@ + exe
        + " run` at login, in the desktop session and without a console window"@;
    assert(text + ""@ =~= text);
    reveal_strlit("registering the task");
    reveal_strlit(
        "registering the task to run with highest privileges, which needs an administrator; run this from an administrator prompt, or pass --limited and accept that windows running as administrator will not take input",
    );
    assert(install_trouble(true).len() != install_trouble(false).len());
}

/// A person is told which program is in the way and who outranks whom, and which
/// desktop input went to.
pub proof fn what_is_said_of_input_held_up(name: String, front: Outranked, can_inject: bool)
    ensures
        in_the_way(InputDesktop::Elsewhere(name), Some(front), can_inject) == Some(
            (
                SuspendReason::SecureDesktop,
                "input is going to the "@ + name@
                    + " desktop -- a UAC prompt, the lock screen or Ctrl+Alt+Del -- which a program in the user's session cannot reach"@,
            ),
        ),
        match in_the_way(InputDesktop::Ours, Some(front), can_inject) {
            Some((_, told)) => exists|rest: Seq<char>|
                told == #[trigger] (front.program@ + " is in front and runs at a "@ + front.theirs@
                    + " integrity level while smkvm runs at a "@ + front.ours@ + rest),
            None => false,
        },
{
    let rest =
        " one, so Windows refuses input from smkvm. Click a different window, or run smkvm as administrator (a scheduled task with 'run with highest privileges') so it outranks everything it has to type into"@;
    assert(in_the_way(InputDesktop::Ours, Some(front), can_inject) == Some(
        (
            SuspendReason::Elevated,
            front.program@ + " is in front and runs at a "@ + front.theirs@
                + " integrity level while smkvm runs at a "@ + front.ours@ + rest,
        ),
    ));
}

/// Of two names in a folder the one that comes first is the one whose bytes do, and
/// a name comes before those that begin with it.
pub proof fn which_name_is_first(a: ChildView, b: ChildView, shared: Seq<u8>, x: Seq<u8>, y: Seq<u8>)
    requires
        a.raw == shared + x,
        b.raw == shared + y,
    ensures
        x.len() > 0 && y.len() > 0 && x[0] < y[0] ==> named_before(a, b) && !named_before(b, a),
        x.len() == 0 && y.len() > 0 ==> named_before(a, b) && !named_before(b, a),
        x.len() == 0 && y.len() == 0 ==> !named_before(a, b) && !named_before(b, a),
{
    bytes_in_order(shared, x, y);
}

proof fn bytes_in_order(shared: Seq<u8>, x: Seq<u8>, y: Seq<u8>)
    ensures
        ({
            let a = octets(shared + x);
            let b = octets(shared + y);
            &&& x.len() > 0 && y.len() > 0 && x[0] < y[0] ==> dictionary(a, b) && !dictionary(b, a)
            &&& x.len() == 0 && y.len() > 0 ==> dictionary(a, b) && !dictionary(b, a)
            &&& x.len() == 0 && y.len() == 0 ==> !dictionary(a, b) && !dictionary(b, a)
        }),
    decreases shared.len(),
{
    let a = octets(shared + x);
    let b = octets(shared + y);
    if shared.len() > 0 {
        let rest = shared.drop_first();
        bytes_in_order(rest, x, y);
        assert(a.drop_first() =~= octets(rest + x));
        assert(b.drop_first() =~= octets(rest + y));
        assert(a[0] == shared[0] as int && b[0] == shared[0] as int);
    } else {
        assert(shared + x =~= x);
        assert(shared + y =~= y);
    }
}

} // verus!
