//! Which package manager installed the program, so that it can be handed to the
//! right one for its removal.

use vstd::prelude::*;
use vstd::string::*;

use crate::error::{AppError, AppResult};
use crate::text::{after_prefix, has_prefix, joined, law_split_joined, lines, lines_of, same, split, split_on, starts_with, strip_prefix, trim, trimmed};

verus! {

/// The name of the package in every package manager.
pub const PACKAGE: &'static str = "neutron";

/// A package manager that the program can come from.
#[derive(Debug, Clone, Copy, PartialEq, Eq, Structural)]
pub enum InstallChannel {
    Homebrew,
    Cargo,
    Unknown,
}

impl InstallChannel {
    /// The name of the channel.
    pub open spec fn spec_name(self) -> Seq<char> {
        match self {
            InstallChannel::Homebrew => "Homebrew"@,
            InstallChannel::Cargo => "cargo"@,
            InstallChannel::Unknown => "unknown"@,
        }
    }

    /// The name of the channel.
    pub fn name(self) -> (r: &'static str)
        ensures
            r@ == self.spec_name(),
    {
        match self {
            InstallChannel::Homebrew => "Homebrew",
            InstallChannel::Cargo => "cargo",
            InstallChannel::Unknown => "unknown",
        }
    }
}

/// How the program is removed.
#[derive(Debug)]
pub struct Removal {
    pub channel: InstallChannel,
    pub program: &'static str,
    pub args: Vec<&'static str>,
}

/// The components among the parts of a path: without empty ones and those that
/// name the directory itself.
pub open spec fn components_of(parts: Seq<Seq<char>>) -> Seq<Seq<char>>
    decreases parts.len(),
{
    if parts.len() == 0 {
        Seq::empty()
    } else {
        let before = components_of(parts.drop_last());
        if parts.last().len() == 0 || parts.last() == "."@ {
            before
        } else {
            before.push(parts.last())
        }
    }
}

/// The components of a path.
pub fn components<'a>(path: &'a str) -> (r: Vec<&'a str>)
    ensures
        r.deep_view() == components_of(split_on(path@, '/')),
{
    let all = split(path, '/');
    let ghost parts = all.deep_view();
    let mut kept: Vec<&'a str> = Vec::new();
    let mut i: usize = 0;
    assert(kept.deep_view() =~= Seq::<Seq<char>>::empty());
    while i < all.len()
        invariant
            i <= all.len(),
            parts == all.deep_view(),
            kept.deep_view() == components_of(parts.take(i as int)),
        decreases all.len() - i,
    {
        proof {
            let next = parts.take(i as int + 1);
            assert(next.drop_last() =~= parts.take(i as int));
            assert(next.last() == all[i as int]@);
        }
        if !all[i].is_empty() && !same(all[i], ".") {
            let ghost before = kept.deep_view();
            kept.push(all[i]);
            assert(kept.deep_view() =~= before.push(all[i as int]@));
        }
        i += 1;
    }
    assert(parts.take(i as int) =~= parts);
    kept
}

/// Whether a path goes through the directory where Homebrew keeps the package,
/// and not that of a package with another name.
pub open spec fn in_cellar(path: Seq<char>) -> bool {
    let parts = components_of(split_on(path, '/'));
    exists|i: int|
        0 <= i && i + 1 < parts.len() && #[trigger] parts[i] == "Cellar"@ && parts[i + 1]
            == "neutron"@
}

/// Whether the program was installed by Homebrew, by its path.
pub fn is_homebrew(exe: &str) -> (r: bool)
    ensures
        r == in_cellar(exe@),
{
    let kept = components(exe);
    let ghost comps = components_of(split_on(exe@, '/'));
    let mut j: usize = 0;
    while j < kept.len()
        invariant
            j <= kept.len(),
            kept.deep_view() == comps,
            comps == components_of(split_on(exe@, '/')),
            forall|k: int|
                0 <= k < j && k + 1 < comps.len() ==> !(#[trigger] comps[k] == "Cellar"@ && comps[k
                    + 1] == "neutron"@),
        decreases kept.len() - j,
    {
        assert(comps[j as int] == kept[j as int]@);
        if j + 1 < kept.len() && same(kept[j], "Cellar") && same(kept[j + 1], PACKAGE) {
            assert(comps[j as int + 1] == kept[j as int + 1]@);
            return true;
        }
        proof {
            if j + 1 < kept.len() {
                assert(comps[j as int + 1] == kept[j as int + 1]@);
            }
        }
        j += 1;
    }
    false
}

/// Whether a line of cargo's list is the entry of the package, with its version.
pub open spec fn is_entry(line: Seq<char>) -> bool {
    match after_prefix(trimmed(line), "neutron"@) {
        Some(rest) => has_prefix(rest, " v"@),
        None => false,
    }
}

/// Whether cargo's list holds the package.
pub open spec fn lists_package(list: Option<Seq<char>>) -> bool {
    match list {
        Some(text) => exists|i: int|
            0 <= i < lines_of(text).len() && is_entry(#[trigger] lines_of(text)[i]),
        None => false,
    }
}

/// Whether cargo's list holds the package, and not only one whose name starts
/// alike.
pub fn cargo_has_package(cargo_list: Option<&str>) -> (r: bool)
    ensures
        r == lists_package(crate::text::opt_view(cargo_list)),
{
    let text = match cargo_list {
        Some(text) => text,
        None => {
            return false;
        },
    };
    let rows = lines(text);
    let mut i: usize = 0;
    while i < rows.len()
        invariant
            i <= rows.len(),
            cargo_list == Some(text),
            rows.deep_view() == lines_of(text@),
            forall|k: int| 0 <= k < i ==> !is_entry(#[trigger] lines_of(text@)[k]),
        decreases rows.len() - i,
    {
        assert(rows.deep_view()[i as int] == rows[i as int]@);
        let hit = match strip_prefix(trim(rows[i]), PACKAGE) {
            Some(rest) => starts_with(rest, " v"),
            None => false,
        };
        if hit {
            assert(is_entry(lines_of(text@)[i as int]));
            assert(lists_package(Some(text@)));
            return true;
        }
        i += 1;
    }
    false
}

/// What is said when the program cannot be removed.
pub open spec fn refusal(exe: Seq<char>, detail: Seq<char>) -> Seq<char> {
    "cannot uninstall automatically: "@ + detail
        + ", so Neutron does not know which package manager owns "@ + exe
        + ". Nothing was changed. Supported: a Homebrew tap install or `cargo install`; anything else has to be removed by hand."@
}

/// What is said when the program cannot be removed.
pub fn unrecognized(exe: &str, detail: &str) -> (r: String)
    ensures
        r@ == refusal(exe@, detail@),
{
    "cannot uninstall automatically: ".to_owned().concat(detail).concat(
        ", so Neutron does not know which package manager owns ",
    ).concat(exe).concat(
        ". Nothing was changed. Supported: a Homebrew tap install or `cargo install`; anything else has to be removed by hand.",
    )
}

/// The channel that the program came from. The path decides over an entry that
/// cargo still lists.
pub open spec fn channel_of(exe: Seq<char>, cargo_list: Option<Seq<char>>) -> InstallChannel {
    if in_cellar(exe) {
        InstallChannel::Homebrew
    } else if lists_package(cargo_list) {
        InstallChannel::Cargo
    } else {
        InstallChannel::Unknown
    }
}

/// The tool of a channel.
pub open spec fn tool_of(channel: InstallChannel) -> Seq<char> {
    match channel {
        InstallChannel::Homebrew => "brew"@,
        InstallChannel::Cargo => "cargo"@,
        InstallChannel::Unknown => Seq::empty(),
    }
}

/// Why the program cannot be removed where no channel is recognized.
pub open spec fn unknown_detail() -> Seq<char> {
    "its path is not a Homebrew Cellar install and `cargo install --list` does not list it"@
}

/// Why the program cannot be removed where the tool of its channel cannot run.
pub open spec fn missing_detail(channel: InstallChannel) -> Seq<char> {
    "it looks like a "@ + channel.spec_name() + " install, but `"@ + tool_of(channel)
        + "` is not runnable here (an installed-from-desktop or stripped PATH is the usual cause)"@
}

/// Whether asking for a tool gave an answer.
pub open spec fn answered<F: FnOnce(&str) -> bool>(ask: F, tool: Seq<char>, answer: bool) -> bool {
    exists|program: &str| program@ == tool && #[trigger] ask.ensures((program,), answer)
}

/// Decide how the program is removed, from its path, cargo's list of packages and
/// whether its tool can run. A source that is not recognized, or whose tool cannot
/// run, is refused before anything is touched; no tool is looked for where the
/// source is not recognized.
pub fn resolve<F: FnOnce(&str) -> bool>(exe: &str, cargo_list: Option<&str>, tool_on_path: F) -> (r:
    AppResult<Removal>)
    requires
        ({
            let channel = channel_of(exe@, crate::text::opt_view(cargo_list));
            channel != InstallChannel::Unknown ==> forall|program: &str|
                program@ == tool_of(channel) ==> #[trigger] tool_on_path.requires((program,))
        }),
    ensures
        ({
            let channel = channel_of(exe@, crate::text::opt_view(cargo_list));
            match r {
                Ok(removal) => {
                    &&& channel != InstallChannel::Unknown
                    &&& removal.channel == channel
                    &&& removal.program@ == tool_of(channel)
                    &&& removal.args.deep_view() == seq!["uninstall"@, "neutron"@]
                    &&& answered(tool_on_path, tool_of(channel), true)
                },
                Err(e) => e matches AppError::Uninstall(m) && if channel
                    == InstallChannel::Unknown {
                    m@ == refusal(exe@, unknown_detail())
                } else {
                    m@ == refusal(exe@, missing_detail(channel)) && answered(
                        tool_on_path,
                        tool_of(channel),
                        false,
                    )
                },
            }
        }),
{
    let channel = if is_homebrew(exe) {
        InstallChannel::Homebrew
    } else if cargo_has_package(cargo_list) {
        InstallChannel::Cargo
    } else {
        InstallChannel::Unknown
    };
    let program = match channel {
        InstallChannel::Homebrew => "brew",
        InstallChannel::Cargo => "cargo",
        InstallChannel::Unknown => {
            return Err(
                AppError::Uninstall(
                    unrecognized(
                        exe,
                        "its path is not a Homebrew Cellar install and `cargo install --list` does not list it",
                    ),
                ),
            );
        },
    };
    let runs = tool_on_path(program);
    assert(tool_on_path.ensures((program,), runs));
    if !runs {
        let detail = "it looks like a ".to_owned().concat(channel.name()).concat(
            " install, but `",
        ).concat(program).concat(
            "` is not runnable here (an installed-from-desktop or stripped PATH is the usual cause)",
        );
        return Err(AppError::Uninstall(unrecognized(exe, detail.as_str())));
    }
    let args = vec!["uninstall", PACKAGE];
    assert(args.deep_view() =~= seq!["uninstall"@, "neutron"@]);
    Ok(Removal { channel, program, args })
}

proof fn lemma_components(parts: Seq<Seq<char>>)
    requires
        forall|i: int| 0 <= i < parts.len() ==> (#[trigger] parts[i]).len() > 0 && parts[i] != "."@,
    ensures
        components_of(parts) == parts,
    decreases parts.len(),
{
    if parts.len() > 0 {
        let less = parts.drop_last();
        assert forall|i: int| 0 <= i < less.len() implies (#[trigger] less[i]).len() > 0 && less[i]
            != "."@ by {
            assert(less[i] == parts[i]);
        }
        lemma_components(less);
        assert(parts.last() == parts[parts.len() - 1]);
        assert(less.push(parts.last()) =~= parts);
    }
}

/// A program whose path leads through the directory of its name in a Cellar was
/// installed by Homebrew; else it was by cargo where that lists the package, and
/// otherwise nobody knows.
pub proof fn law_channels(parts: Seq<Seq<char>>, cargo_list: Option<Seq<char>>)
    requires
        parts.len() > 0,
        forall|i: int|
            0 <= i < parts.len() ==> (#[trigger] parts[i]).len() > 0 && parts[i] != "."@
                && !parts[i].contains('/'),
    ensures
        ({
            let brewed = exists|i: int|
                0 <= i && i + 1 < parts.len() && #[trigger] parts[i] == "Cellar"@ && parts[i + 1]
                    == "neutron"@;
            let listed = cargo_list is Some && exists|i: int|
                0 <= i < lines_of(cargo_list->0).len() && has_prefix(
                    trimmed(#[trigger] lines_of(cargo_list->0)[i]),
                    "neutron v"@,
                );
            channel_of(joined(parts, seq!['/']), cargo_list) == (if brewed {
                InstallChannel::Homebrew
            } else if listed {
                InstallChannel::Cargo
            } else {
                InstallChannel::Unknown
            })
        }),
{
    law_split_joined(parts, '/');
    lemma_components(parts);
    if let Some(text) = cargo_list {
        assert forall|i: int| 0 <= i < lines_of(text).len() implies (is_entry(
            #[trigger] lines_of(text)[i],
        ) <==> has_prefix(trimmed(lines_of(text)[i]), "neutron v"@)) by {
            lemma_entry(lines_of(text)[i]);
        }
        if exists|i: int| 0 <= i < lines_of(text).len() && is_entry(#[trigger] lines_of(text)[i]) {
            let i = choose|i: int|
                0 <= i < lines_of(text).len() && is_entry(#[trigger] lines_of(text)[i]);
            assert(has_prefix(trimmed(lines_of(text)[i]), "neutron v"@));
        }
    }
}

proof fn lemma_entry(line: Seq<char>)
    ensures
        is_entry(line) <==> has_prefix(trimmed(line), "neutron v"@),
{
    let t = trimmed(line);
    reveal_strlit("neutron");
    reveal_strlit(" v");
    reveal_strlit("neutron v");
    if has_prefix(t, "neutron v"@) {
        assert(t.take(9) == "neutron v"@);
        assert(t.take(7) =~= "neutron"@) by {
            assert forall|k: int| 0 <= k < 7 implies t[k] == "neutron"@[k] by {
                assert(t.take(9)[k] == t[k]);
            }
        }
        assert(t.skip(7).take(2) =~= " v"@) by {
            assert(t.take(9)[7] == t[7] && t.take(9)[8] == t[8]);
        }
    }
    if is_entry(line) {
        assert(t.take(9) =~= "neutron v"@) by {
            assert forall|k: int| 0 <= k < 9 implies t[k] == "neutron v"@[k] by {
                if k < 7 {
                    assert(t.take(7)[k] == t[k]);
                } else {
                    assert(t.skip(7).take(2)[k - 7] == t[k]);
                }
            }
        }
    }
}

/// Each channel is removed by its own tool.
pub proof fn law_tools()
    ensures
        tool_of(InstallChannel::Homebrew) == "brew"@,
        tool_of(InstallChannel::Cargo) == "cargo"@,
{
}

} // verus!
