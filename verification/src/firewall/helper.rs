//! The helper that refreshes the lockdown without asking for a password.
//!
//! It is a copy of the program that belongs to root. It works out the rules from
//! what NetworkManager reports, takes no rule from its caller, and can neither
//! turn the lockdown on nor off.

use vstd::prelude::*;
use vstd::string::*;

use crate::error::{AppError, AppResult};
use crate::firewall::rules::{host_views, reload, Batch, ResolvedHost};
use crate::firewall::script::{build_firewall_script, law_script_runs_the_commands, quoted, runs_lines, shell_quote};
use crate::firewall::teardown::{disable_batches, enable_batches, rebuild_of};
use crate::nm::endpoints::{tunnel_views, TunnelView, WireguardTunnel};
use crate::nm::profiles::{profile_views, ProfileView, WireguardProfile};
use crate::record::{grown, lemma_since_none, lemma_since_push, since, Recorder};
use crate::text::{after_prefix, chars_of, decimal, is_word, joined, lemma_decimal_value, lemma_words_of_joined, number_value, parse_number, same, split_whitespace, strip_prefix, words_of};

verus! {

/// The name of the helper.
pub const NAME: &'static str = "neutron-lockdown-helper";

/// Where the helper is installed.
pub const PATH: &'static str = "/usr/local/libexec/neutron-lockdown-helper";

/// The lock that every change of the rules holds.
pub const LOCK_PATH: &'static str = "/run/neutron-lockdown.lock";

/// The action that authorizes the helper.
pub const ACTION_ID: &'static str = "io.github.pandabytez.neutron.lockdown-refresh";

/// The policy that earlier versions installed.
pub const LEGACY_POLICY_PATH: &'static str = "/etc/polkit-1/rules.d/49-neutron-lockdown-refresh.rules";

/// The directory of actions that is read since polkit 126.
pub const LOCAL_ACTION_DIR: &'static str = "/usr/local/share/polkit-1/actions";

/// The directory of actions that every polkit reads.
pub const SHARED_ACTION_DIR: &'static str = "/usr/share/polkit-1/actions";

// ---------------------------------------------------------------------------
// The version of polkit
// ---------------------------------------------------------------------------

/// The release that a version of polkit names: its last word, with or without a
/// leading zero major version.
pub open spec fn polkit_release(version: Seq<char>) -> Option<nat> {
    let words = words_of(version);
    if words.len() == 0 {
        None
    } else {
        let last = words.last();
        let number = match after_prefix(last, "0."@) {
            Some(rest) => rest,
            None => last,
        };
        match number_value(number, u32::MAX as nat) {
            Ok(n) => Some(n),
            Err(_) => None,
        }
    }
}

/// The directory of actions that a version of polkit reads: the local one since
/// release 126, so that an immutable `/usr` does not matter; else the shared one.
pub fn action_directory(version: &str) -> (r: AppResult<&'static str>)
    ensures
        match r {
            Ok(dir) => polkit_release(version@) is Some && dir@ == (if polkit_release(version@)->0
                >= 126 {
                "/usr/local/share/polkit-1/actions"@
            } else {
                "/usr/share/polkit-1/actions"@
            }),
            Err(e) => polkit_release(version@) is None && (e matches AppError::Firewall(m) && m@
                == "Unrecognized polkit version: "@ + version@),
        },
{
    let words = split_whitespace(version);
    if words.len() > 0 {
        let last = words[words.len() - 1];
        assert(words.deep_view().last() == last@);
        let number = match strip_prefix(last, "0.") {
            Some(rest) => rest,
            None => last,
        };
        match parse_number(number, u32::MAX as u64) {
            Ok(n) => {
                return Ok(if n >= 126 { LOCAL_ACTION_DIR } else { SHARED_ACTION_DIR });
            },
            Err(_) => {},
        }
    }
    Err(AppError::Firewall("Unrecognized polkit version: ".to_owned().concat(version)))
}

// ---------------------------------------------------------------------------
// Removing the helper
// ---------------------------------------------------------------------------

/// The commands that make the running polkit forget the actions that it knows.
/// It is found by the owner of its name on the bus, not by the name of a process.
pub const POLKIT_RELOAD: &'static str = "polkit_reply=$(dbus-send --system --print-reply --dest=org.freedesktop.DBus /org/freedesktop/DBus org.freedesktop.DBus.GetConnectionUnixProcessID string:org.freedesktop.PolicyKit1)\npolkit_pid=${polkit_reply##*uint32 }\ncase \"$polkit_pid\" in ''|*[!0-9]*) echo 'Invalid polkit daemon PID' >&2; exit 1;; esac\nkill -HUP \"$polkit_pid\"\n";

/// The commands that make the running polkit forget the actions that it knows.
pub fn polkit_reload() -> (r: &'static str)
    ensures
        r@ == POLKIT_RELOAD@,
{
    POLKIT_RELOAD
}

/// The policy file in a directory of actions.
pub open spec fn policy_path(dir: Seq<char>) -> Seq<char> {
    dir + "/"@ + "io.github.pandabytez.neutron.lockdown-refresh"@ + ".policy"@
}

/// The policy file in a directory of actions.
fn policy_file(dir: &str) -> (r: String)
    ensures
        r@ == policy_path(dir@),
{
    dir.to_owned().concat("/").concat(ACTION_ID).concat(".policy")
}

/// The files that an installation leaves behind. The policies come first: what
/// authorizes the helper is gone before the helper is.
pub open spec fn files() -> Seq<Seq<char>> {
    seq![
        policy_path("/usr/local/share/polkit-1/actions"@),
        policy_path("/usr/share/polkit-1/actions"@),
        "/usr/local/libexec/neutron-lockdown-helper"@,
    ]
}

/// The files that an installation leaves behind.
pub fn installed_files() -> (r: Vec<String>)
    ensures
        r.deep_view() == files(),
{
    let r = vec![policy_file(LOCAL_ACTION_DIR), policy_file(SHARED_ACTION_DIR), PATH.to_owned()];
    assert(r.deep_view() =~= files());
    r
}

/// Whether looking for the files of an installation went so: each is looked for
/// once, in order, up to the first that is there.
pub open spec fn looked_for(calls: Seq<(Seq<char>, bool)>, r: bool) -> bool {
    &&& calls.len() <= files().len()
    &&& forall|k: int|
        0 <= k < calls.len() ==> (#[trigger] calls[k]).0 == files()[k] && calls[k].1 == (r && k
            == calls.len() - 1)
    &&& r ==> calls.len() > 0
    &&& !r ==> calls.len() == files().len()
}

/// Whether a file of an installation is left, given which of them exist.
pub fn is_installed<F: Fn(&str) -> bool>(exists_at: &mut Recorder<str, bool, F>) -> (r: bool)
    ensures
        final(exists_at).follows(*old(exists_at)),
        looked_for(since(old(exists_at).calls(), final(exists_at).calls()), r),
{
    let all = installed_files();
    let ghost start = exists_at.calls();
    let mut i: usize = 0;
    proof {
        lemma_since_none(start);
    }
    while i < all.len()
        invariant
            i <= all.len(),
            all.deep_view() == files(),
            start == old(exists_at).calls(),
            grown(start, exists_at.calls()),
            exists_at.follows(*old(exists_at)),
            since(start, exists_at.calls()).len() == i,
            forall|k: int|
                0 <= k < i ==> (#[trigger] since(start, exists_at.calls())[k]).0 == files()[k]
                    && !since(start, exists_at.calls())[k].1,
        decreases all.len() - i,
    {
        let path = all[i].as_str();
        assert(all.deep_view()[i as int] == path@);
        let ghost before = exists_at.calls();
        let found = exists_at.ask(path);
        proof {
            lemma_since_push(start, before, (path@, found));
        }
        if found {
            return true;
        }
        i += 1;
    }
    false
}

/// The command that removes one file, whether or not it is there.
pub open spec fn removal_of(file: Seq<char>) -> Seq<char> {
    "rm -f -- "@ + file + " || true"@
}

/// The statements of the removal. None of them can end the script: what could
/// not be removed is told afterwards.
pub open spec fn statements() -> Seq<Seq<char>> {
    seq![
        removal_of(files()[0]),
        removal_of(files()[1]),
        removal_of(files()[2]),
        "("@ + POLKIT_RELOAD@ + ") || true"@,
    ]
}

/// The statements of the removal.
pub fn uninstall_statements() -> (r: Vec<String>)
    ensures
        r.deep_view() == statements(),
{
    let all = installed_files();
    let mut r: Vec<String> = Vec::new();
    let mut i: usize = 0;
    assert(all.deep_view().len() == 3);
    while i < 3
        invariant
            i <= 3,
            all.len() == 3,
            all.deep_view() == files(),
            r.deep_view() == statements().take(i as int),
        decreases 3 - i,
    {
        assert(all.deep_view()[i as int] == all[i as int]@);
        let ghost before = r.deep_view();
        r.push("rm -f -- ".to_owned().concat(all[i].as_str()).concat(" || true"));
        assert(r.deep_view() =~= before.push(removal_of(files()[i as int])));
        i += 1;
        assert(statements().take(i as int) =~= statements().take(i as int - 1).push(
            removal_of(files()[i as int - 1]),
        ));
    }
    let ghost before = r.deep_view();
    r.push("(".to_owned().concat(polkit_reload()).concat(") || true"));
    assert(r.deep_view() =~= before.push(statements()[3]));
    assert(r.deep_view() =~= statements());
    r
}

/// Statements, each on a line of its own.
pub open spec fn script_of(lines: Seq<Seq<char>>) -> Seq<char>
    decreases lines.len(),
{
    if lines.len() == 0 {
        Seq::empty()
    } else {
        script_of(lines.drop_last()) + lines.last() + seq!['\n']
    }
}

/// The script of the removal: exactly its statements.
pub fn uninstall_script() -> (r: String)
    ensures
        r@ == script_of(statements()),
{
    let all = uninstall_statements();
    let ghost lines = all.deep_view();
    let mut r = String::new();
    let mut i: usize = 0;
    assert(r@ =~= script_of(lines.take(0)));
    while i < all.len()
        invariant
            i <= all.len(),
            lines == all.deep_view(),
            r@ == script_of(lines.take(i as int)),
        decreases all.len() - i,
    {
        proof {
            let next = lines.take(i as int + 1);
            assert(next.drop_last() =~= lines.take(i as int));
            assert(next.last() == all[i as int]@);
        }
        let ghost before = r@;
        r.append(all[i].as_str());
        r.push('\n');
        assert(r@ =~= before + all[i as int]@ + seq!['\n']);
        i += 1;
    }
    assert(lines.take(i as int) =~= lines);
    r
}

/// No statement of the removal can fail, and the policies are removed before the
/// helper that they authorize.
pub proof fn law_removal_never_aborts(i: int)
    requires
        0 <= i < statements().len(),
    ensures
        crate::text::has_suffix(statements()[i], "|| true"@),
        files()[2] == PATH@,
        i < 2 ==> crate::text::has_suffix(files()[i], ".policy"@),
{
    reveal_strlit(" || true");
    reveal_strlit(") || true");
    reveal_strlit("|| true");
    let s = statements()[i];
    let tail = "|| true"@;
    assert(s.skip(s.len() - tail.len()) =~= tail);
    if i < 2 {
        let f = files()[i];
        reveal_strlit(".policy");
        assert(f.skip(f.len() - ".policy"@.len()) =~= ".policy"@);
    }
}

// ---------------------------------------------------------------------------
// Installing the helper
// ---------------------------------------------------------------------------

/// The policy up to the path that it authorizes.
pub const POLICY_START: &'static str = "<?xml version=\"1.0\" encoding=\"UTF-8\"?>\n<!DOCTYPE policyconfig PUBLIC \"-//freedesktop//DTD PolicyKit Policy Configuration 1.0//EN\"\n \"http://www.freedesktop.org/standards/PolicyKit/1/policyconfig.dtd\">\n<policyconfig>\n  <action id=\"io.github.pandabytez.neutron.lockdown-refresh\">\n    <description>Refresh existing Neutron lockdown rules</description>\n    <message>Refresh existing Neutron lockdown rules</message>\n    <defaults>\n      <allow_any>no</allow_any>\n      <allow_inactive>no</allow_inactive>\n      <allow_active>yes</allow_active>\n    </defaults>\n    <annotate key=\"org.freedesktop.policykit.exec.path\">";

/// The policy after the path that it authorizes.
pub const POLICY_END: &'static str = "</annotate>\n  </action>\n</policyconfig>\n";

/// The commands that put the helper in place: the old copy may still run, so it
/// is replaced in one step, and its canonical path is found.
pub open spec fn helper_commands(executable: Seq<char>) -> Seq<char> {
    "install -d -m 755 /usr/local/libexec\ninstall -m 755 -- "@ + quoted(executable)
        + " /usr/local/libexec/neutron-lockdown-helper.new\nmv -f -- /usr/local/libexec/neutron-lockdown-helper.new /usr/local/libexec/neutron-lockdown-helper\nhelper_path=$(readlink -f -- /usr/local/libexec/neutron-lockdown-helper)\nhelper_path_xml=$(printf %s \"$helper_path\" | sed 's/&/\\&amp;/g; s/</\\&lt;/g; s/>/\\&gt;/g')\n"@
}

/// The commands that put the policy in place, and take the old one away.
pub open spec fn policy_commands(dir: Seq<char>) -> Seq<char> {
    "install -d -m 755 "@ + dir + "\nprintf %s "@ + quoted(POLICY_START@)
        + " \"$helper_path_xml\" "@ + quoted(POLICY_END@) + " > "@ + policy_path(dir)
        + ".new\nchmod 644 "@ + policy_path(dir) + ".new\nmv -f -- "@ + policy_path(dir) + ".new "@
        + policy_path(dir)
        + "\nrm -f -- /etc/polkit-1/rules.d/49-neutron-lockdown-refresh.rules\n"@
}

/// The commands that wait until polkit knows the action, and that start the
/// firewall at boot.
pub const SETTLE_COMMANDS: &'static str = "attempt=0\nuntil pkaction --action-id io.github.pandabytez.neutron.lockdown-refresh >/dev/null 2>&1; do\nattempt=$((attempt + 1))\nif [ \"$attempt\" -ge 5 ]; then pkaction --action-id io.github.pandabytez.neutron.lockdown-refresh >&2; exit 1; fi\nsleep 1\ndone\nif [ -d /run/systemd/system ]; then systemctl enable firewalld.service; fi\n";

/// The script that installs the helper. A local directory of actions may be new,
/// so polkit is told to read it.
pub open spec fn install_commands(executable: Seq<char>, dir: Seq<char>) -> Seq<char> {
    helper_commands(executable) + policy_commands(dir) + (if dir
        == "/usr/local/share/polkit-1/actions"@ {
        POLKIT_RELOAD@
    } else {
        Seq::empty()
    }) + SETTLE_COMMANDS@
}

/// The commands that put the helper in place.
fn helper_script(executable: &str) -> (r: String)
    ensures
        r@ == helper_commands(executable@),
{
    let source = shell_quote(executable);
    "install -d -m 755 /usr/local/libexec\ninstall -m 755 -- ".to_owned().concat(
        source.as_str(),
    ).concat(
        " /usr/local/libexec/neutron-lockdown-helper.new\nmv -f -- /usr/local/libexec/neutron-lockdown-helper.new /usr/local/libexec/neutron-lockdown-helper\nhelper_path=$(readlink -f -- /usr/local/libexec/neutron-lockdown-helper)\nhelper_path_xml=$(printf %s \"$helper_path\" | sed 's/&/\\&amp;/g; s/</\\&lt;/g; s/>/\\&gt;/g')\n",
    )
}

/// The commands that put the policy in place.
fn policy_script(dir: &str) -> (r: String)
    ensures
        r@ == policy_commands(dir@),
{
    let start = shell_quote(POLICY_START);
    let end = shell_quote(POLICY_END);
    let path = policy_file(dir);
    "install -d -m 755 ".to_owned().concat(dir).concat("\nprintf %s ").concat(
        start.as_str(),
    ).concat(" \"$helper_path_xml\" ").concat(end.as_str()).concat(" > ").concat(
        path.as_str(),
    ).concat(".new\nchmod 644 ").concat(path.as_str()).concat(".new\nmv -f -- ").concat(
        path.as_str(),
    ).concat(".new ").concat(path.as_str()).concat(
        "\nrm -f -- /etc/polkit-1/rules.d/49-neutron-lockdown-refresh.rules\n",
    )
}

/// The script that installs the helper from `executable`, with its policy in a
/// directory of actions.
pub fn install_script(executable: &str, action_dir: &str) -> (r: String)
    ensures
        r@ == install_commands(executable@, action_dir@),
{
    let mut r = helper_script(executable);
    let policy = policy_script(action_dir);
    r.append(policy.as_str());
    if same(action_dir, LOCAL_ACTION_DIR) {
        r.append(polkit_reload());
    }
    r.append(SETTLE_COMMANDS);
    assert(r@ =~= install_commands(executable@, action_dir@));
    r
}

// ---------------------------------------------------------------------------
// Running the helper
// ---------------------------------------------------------------------------

/// Whether a character is a hexadecimal digit.
pub open spec fn is_hex(c: char) -> bool {
    '0' <= c <= '9' || 'a' <= c <= 'f' || 'A' <= c <= 'F'
}

/// Whether a text is the identifier of a profile: groups of hexadecimal digits
/// of eight, four, four, four and twelve, with dashes between them.
pub open spec fn is_uuid(s: Seq<char>) -> bool {
    s.len() == 36 && forall|i: int|
        0 <= i < 36 ==> if i == 8 || i == 13 || i == 18 || i == 23 {
            #[trigger] s[i] == '-'
        } else {
            is_hex(s[i])
        }
}

/// The profile that a refresh is asked to count as up, if any. Anything else that
/// is asked for is refused.
pub fn activation_request(requested: &str) -> (r: AppResult<Option<String>>)
    ensures
        match r {
            Ok(None) => requested@.len() == 0,
            Ok(Some(uuid)) => is_uuid(requested@) && uuid@ == requested@,
            Err(e) => requested@.len() > 0 && !is_uuid(requested@) && (e matches AppError::Firewall(
                m,
            ) && m@ == "Invalid activation UUID"@),
        },
{
    if requested.is_empty() {
        return Ok(None);
    }
    let cs = chars_of(requested);
    let mut valid = cs.len() == 36;
    let mut i: usize = 0;
    while valid && i < 36
        invariant
            i <= 36,
            cs@ == requested@,
            valid ==> cs.len() == 36,
            valid ==> forall|k: int|
                0 <= k < i ==> if k == 8 || k == 13 || k == 18 || k == 23 {
                    #[trigger] cs@[k] == '-'
                } else {
                    is_hex(cs@[k])
                },
            !valid ==> !is_uuid(requested@),
        decreases 36 - i,
    {
        let c = cs[i];
        assert(c == requested@[i as int]);
        if i == 8 || i == 13 || i == 18 || i == 23 {
            valid = c == '-';
        } else {
            valid = ('0' <= c && c <= '9') || ('a' <= c && c <= 'f') || ('A' <= c && c <= 'F');
        }
        i += 1;
    }
    if valid {
        Ok(Some(requested.to_owned()))
    } else {
        Err(AppError::Firewall("Invalid activation UUID".to_owned()))
    }
}

/// The tunnels, with the one of an interface counted as up.
pub open spec fn with_active(tunnels: Seq<TunnelView>, interface: Seq<char>) -> Seq<TunnelView> {
    tunnels.map_values(
        |t: TunnelView|
            TunnelView { is_active: t.is_active || t.interface == Some(interface), ..t },
    )
}

/// Whether a profile is among those that are known.
pub open spec fn knows(profiles: Seq<ProfileView>, uuid: Seq<char>) -> bool {
    exists|i: int| 0 <= i < profiles.len() && (#[trigger] profiles[i]).uuid == uuid
}

/// Whether a profile is among those that are known.
fn is_known(profiles: &[WireguardProfile], uuid: &str) -> (r: bool)
    ensures
        r == knows(profile_views(profiles@), uuid@),
{
    let ghost views = profile_views(profiles@);
    let mut i: usize = 0;
    while i < profiles.len()
        invariant
            i <= profiles.len(),
            views == profile_views(profiles@),
            forall|k: int| 0 <= k < i ==> (#[trigger] views[k]).uuid != uuid@,
        decreases profiles.len() - i,
    {
        assert(views[i as int].uuid == profiles[i as int].uuid@);
        if same(profiles[i].uuid.as_str(), uuid) {
            return true;
        }
        i += 1;
    }
    false
}

/// Count the tunnel of a profile that is about to be activated as up. The profile
/// has to be known and to have an interface.
pub fn mark_activating(
    tunnels: &mut Vec<WireguardTunnel>,
    profiles: &[WireguardProfile],
    uuid: &str,
    interface: Option<&str>,
) -> (r: AppResult<()>)
    ensures
        match r {
            Ok(_) => {
                &&& knows(profile_views(profiles@), uuid@)
                &&& interface is Some
                &&& tunnel_views(final(tunnels)@) == with_active(
                    tunnel_views(old(tunnels)@),
                    interface->0@,
                )
            },
            Err(e) => {
                &&& *final(tunnels) == *old(tunnels)
                &&& e matches AppError::Firewall(m) && if !knows(profile_views(profiles@), uuid@) {
                    m@ == "Unknown WireGuard activation UUID"@
                } else {
                    interface is None && m@ == "WireGuard activation has no configured interface"@
                }
            },
        },
{
    if !is_known(profiles, uuid) {
        return Err(AppError::Firewall("Unknown WireGuard activation UUID".to_owned()));
    }
    let name = match interface {
        Some(name) => name,
        None => {
            return Err(
                AppError::Firewall("WireGuard activation has no configured interface".to_owned()),
            );
        },
    };
    let ghost before = tunnel_views(tunnels@);
    let ghost target = with_active(before, name@);
    let mut i: usize = 0;
    while i < tunnels.len()
        invariant
            i <= tunnels.len(),
            tunnels.len() == before.len(),
            target == with_active(before, name@),
            forall|k: int| 0 <= k < i ==> #[trigger] tunnels@[k]@ == target[k],
            forall|k: int| i <= k < tunnels.len() ==> #[trigger] tunnels@[k]@ == before[k],
        decreases tunnels.len() - i,
    {
        let ghost now = tunnels@;
        assert(now[i as int]@ == before[i as int]);
        let hit = match &tunnels[i].interface {
            Some(own) => same(own.as_str(), name),
            None => false,
        };
        if hit {
            tunnels[i].is_active = true;
        }
        assert(tunnels@[i as int]@ =~= target[i as int]);
        assert forall|k: int| i < k < tunnels.len() implies #[trigger] tunnels@[k]@ == before[k] by {
            assert(tunnels@[k] == now[k]);
        }
        assert forall|k: int| 0 <= k < i implies #[trigger] tunnels@[k]@ == target[k] by {
            assert(tunnels@[k] == now[k]);
        }
        i += 1;
    }
    assert(tunnel_views(tunnels@) =~= target);
    Ok(())
}

/// What a refresh without an installed helper comes to: nothing has to be done
/// where the rules match; else the user is told how to install the helper.
pub fn refresh_without_helper(nothing_to_do: bool) -> (r: AppResult<()>)
    ensures
        match r {
            Ok(_) => nothing_to_do,
            Err(e) => !nothing_to_do && (e matches AppError::Firewall(m) && m@
                == "Lockdown rules need refreshing. Run `neutron lockdown enable` once to install the password-free refresh helper; existing protection remains in place."@),
        },
{
    if nothing_to_do {
        return Ok(());
    }
    Err(
        AppError::Firewall(
            "Lockdown rules need refreshing. Run `neutron lockdown enable` once to install the password-free refresh helper; existing protection remains in place.".to_owned(),
        ),
    )
}

/// What is said when the helper is not authorized.
pub fn authorization_error(detail: &str) -> (r: AppError)
    ensures
        r matches AppError::Firewall(m) && m@
            == "Password-free lockdown refresh is unavailable: "@ + detail@
            + ". Run `neutron lockdown enable` once from an active local session to install or repair authorization; existing protection remains in place."@,
{
    AppError::Firewall(
        "Password-free lockdown refresh is unavailable: ".to_owned().concat(detail).concat(
            ". Run `neutron lockdown enable` once from an active local session to install or repair authorization; existing protection remains in place.",
        ),
    )
}

/// The arguments that ask polkit whether the helper is authorized for a process.
/// They ask for no interaction, and give no detail, which only root may give.
pub fn authorization_args(process: u32) -> (r: Vec<String>)
    ensures
        r.deep_view() == seq![
            "--action-id"@,
            "io.github.pandabytez.neutron.lockdown-refresh"@,
            "--process"@,
            crate::text::decimal(process as nat),
        ],
{
    let r = vec![
        "--action-id".to_owned(),
        ACTION_ID.to_owned(),
        "--process".to_owned(),
        crate::text::decimal_string(process as u128),
    ];
    assert(r.deep_view() =~= seq![
        "--action-id"@,
        "io.github.pandabytez.neutron.lockdown-refresh"@,
        "--process"@,
        crate::text::decimal(process as nat),
    ]);
    r
}

// ---------------------------------------------------------------------------
// The scripts that run as root
// ---------------------------------------------------------------------------

/// The script that turns the lockdown off: it removes the rules and, only with
/// `grant`, the helper and what authorizes it.
pub open spec fn teardown_commands(
    removals: Seq<Batch>,
    preservations: Seq<Batch>,
    grant: bool,
) -> Seq<char> {
    crate::firewall::script::script_of(removals.push(reload()) + preservations) + (if grant {
        script_of(statements())
    } else {
        Seq::empty()
    })
}

/// The script that turns the lockdown off.
pub fn teardown_script(
    removals: Vec<Vec<String>>,
    preservations: Vec<Vec<String>>,
    grant: bool,
) -> (r: String)
    ensures
        r@ == teardown_commands(removals.deep_view(), preservations.deep_view(), grant),
{
    let batches = disable_batches(removals, preservations);
    let list = batches.as_slice();
    assert(list.deep_view() =~= batches.deep_view());
    let mut r = build_firewall_script(list);
    let ghost rules = r@;
    if grant {
        let helper = uninstall_script();
        r.append(helper.as_str());
    }
    assert(r@ =~= rules + (if grant {
        script_of(statements())
    } else {
        Seq::empty()
    }));
    r
}

/// The script that turns the lockdown on: it replaces the rules and installs the
/// helper from `executable`.
pub fn enable_script(
    removals: Vec<Vec<String>>,
    tunnels: &[WireguardTunnel],
    hosts: &[ResolvedHost],
    preservations: Vec<Vec<String>>,
    executable: &str,
    action_dir: &str,
) -> (r: String)
    ensures
        r@ == crate::firewall::script::script_of(
            rebuild_of(removals.deep_view(), tunnel_views(tunnels@), host_views(hosts@))
                + preservations.deep_view(),
        ) + install_commands(executable@, action_dir@),
{
    let batches = enable_batches(removals, tunnels, hosts, preservations);
    let list = batches.as_slice();
    assert(list.deep_view() =~= batches.deep_view());
    let mut r = build_firewall_script(list);
    let install = install_script(executable, action_dir);
    r.append(install.as_str());
    r
}

/// A tunnel counts as up where it was up, or where its interface is the one that just
/// came up; nothing else of the tunnels changes.
pub proof fn law_fresh_interface_is_up(tunnels: Seq<TunnelView>, interface: Seq<char>, i: int)
    requires
        0 <= i < tunnels.len(),
    ensures
        with_active(tunnels, interface).len() == tunnels.len(),
        with_active(tunnels, interface)[i].is_active <==> tunnels[i].is_active
            || tunnels[i].interface == Some(interface),
        with_active(tunnels, interface)[i].interface == tunnels[i].interface,
        with_active(tunnels, interface)[i].endpoints == tunnels[i].endpoints,
{
}

/// Whether the helper is installed is looked for file by file, and told to be so
/// exactly where one of its files is there: its policies in both places where they
/// may be, and the helper itself.
pub proof fn law_any_file_counts(calls: Seq<(Seq<char>, bool)>, r: bool)
    requires
        looked_for(calls, r),
    ensures
        r <==> exists|k: int| 0 <= k < calls.len() && (#[trigger] calls[k]).1,
        !r ==> calls.len() == 3 && calls[0].0
            == "/usr/local/share/polkit-1/actions/io.github.pandabytez.neutron.lockdown-refresh.policy"@
            && calls[1].0
            == "/usr/share/polkit-1/actions/io.github.pandabytez.neutron.lockdown-refresh.policy"@
            && calls[2].0 == "/usr/local/libexec/neutron-lockdown-helper"@,
{
    if r {
        assert(calls[calls.len() - 1].1);
    } else {
        assert(calls.len() == 3);
        assert(calls[0].0 == files()[0] && calls[1].0 == files()[1] && calls[2].0 == files()[2]);
        reveal_strlit("/");
        reveal_strlit("io.github.pandabytez.neutron.lockdown-refresh");
        reveal_strlit(".policy");
        reveal_strlit("/usr/local/share/polkit-1/actions");
        reveal_strlit("/usr/share/polkit-1/actions");
        reveal_strlit(
            "/usr/local/share/polkit-1/actions/io.github.pandabytez.neutron.lockdown-refresh.policy",
        );
        reveal_strlit(
            "/usr/share/polkit-1/actions/io.github.pandabytez.neutron.lockdown-refresh.policy",
        );
        assert(files()[0]
            =~= "/usr/local/share/polkit-1/actions/io.github.pandabytez.neutron.lockdown-refresh.policy"@);
        assert(files()[1]
            =~= "/usr/share/polkit-1/actions/io.github.pandabytez.neutron.lockdown-refresh.policy"@);
    }
}

/// The release of polkit is the number at the end of its version, before which a zero
/// and a dot may stand.
pub proof fn law_polkit_release(words: Seq<Seq<char>>, release: nat)
    requires
        words.len() > 0,
        forall|i: int| 0 <= i < words.len() ==> is_word(#[trigger] words[i]),
        words.last() == decimal(release) || words.last() == seq!['0', '.'] + decimal(release),
        release <= u32::MAX,
    ensures
        polkit_release(joined(words, " "@)) == Some(release),
{
    lemma_words_of_joined(words);
    lemma_decimal_value(release, u32::MAX as nat);
    reveal_strlit("0.");
    let d = decimal(release);
    let last = words.last();
    if last == d {
        if d.len() >= 2 {
            assert('0' <= d[1]);
            assert(d.take(2)[1] == d[1]);
        }
    } else {
        assert(last.take(2) =~= "0."@);
        assert(last.skip(2) =~= d);
    }
}

/// Turning the lockdown off runs the removals, then the reload, then what restores
/// foreign rules; that the helper is taken away too only adds to the script.
pub proof fn law_turning_off_runs_the_removals(removals: Seq<Batch>, preservations: Seq<Batch>)
    ensures
        ({
            let kept = teardown_commands(removals, preservations, false);
            &&& kept.len() >= 7 && kept.take(7) == "set -e\n"@
            &&& runs_lines(kept.skip(7), removals + seq![reload()] + preservations)
            &&& teardown_commands(removals, preservations, true) == kept + script_of(statements())
        }),
{
    let all = removals + seq![reload()] + preservations;
    assert(removals.push(reload()) + preservations =~= all);
    law_script_runs_the_commands(all);
    let kept = teardown_commands(removals, preservations, false);
    assert(kept =~= crate::firewall::script::script_of(all));
}

/// The identifier of a profile is made of groups of hexadecimal digits, of these
/// lengths and with dashes between them.
pub proof fn law_profile_identifiers(
    a: Seq<char>,
    b: Seq<char>,
    c: Seq<char>,
    d: Seq<char>,
    e: Seq<char>,
)
    requires
        a.len() == 8,
        b.len() == 4,
        c.len() == 4,
        d.len() == 4,
        e.len() == 12,
    ensures
        is_uuid(a + seq!['-'] + b + seq!['-'] + c + seq!['-'] + d + seq!['-'] + e) <==> (forall|
            x: char,
        |
            (a + b + c + d + e).contains(x) ==> "0123456789abcdefABCDEF"@.contains(x)),
{
    let s = a + seq!['-'] + b + seq!['-'] + c + seq!['-'] + d + seq!['-'] + e;
    let digits = a + b + c + d + e;
    let known = "0123456789abcdefABCDEF"@;
    reveal_strlit("0123456789abcdefABCDEF");
    assert forall|x: char| #[trigger] known.contains(x) <==> is_hex(x) by {
        if is_hex(x) {
            let k = if x <= '9' {
                x as int - '0' as int
            } else if x >= 'a' {
                10 + (x as int - 'a' as int)
            } else {
                16 + (x as int - 'A' as int)
            };
            assert(known[k] == x);
        }
    }
    assert forall|k: int| 0 <= k < 32 implies #[trigger] digits[k] == s[place_of(k)] by {}
    if is_uuid(s) {
        assert forall|x: char| digits.contains(x) implies known.contains(x) by {
            let k = choose|k: int| 0 <= k < digits.len() && digits[k] == x;
            assert(digits[k] == s[place_of(k)]);
            assert(is_hex(s[place_of(k)]));
        }
    }
    if forall|x: char| digits.contains(x) ==> known.contains(x) {
        assert forall|i: int| 0 <= i < 36 implies if i == 8 || i == 13 || i == 18 || i == 23 {
            #[trigger] s[i] == '-'
        } else {
            is_hex(s[i])
        } by {
            if !(i == 8 || i == 13 || i == 18 || i == 23) {
                let k = if i < 8 {
                    i
                } else if i < 13 {
                    i - 1
                } else if i < 18 {
                    i - 2
                } else if i < 23 {
                    i - 3
                } else {
                    i - 4
                };
                assert(place_of(k) == i);
                assert(digits[k] == s[i]);
                assert(digits.contains(s[i]));
                assert(known.contains(s[i]));
            }
        }
    }
}

/// Where a digit of an identifier stands in it.
spec fn place_of(k: int) -> int {
    if k < 8 {
        k
    } else if k < 12 {
        k + 1
    } else if k < 16 {
        k + 2
    } else if k < 20 {
        k + 3
    } else {
        k + 4
    }
}

} // verus!
