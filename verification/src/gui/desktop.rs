//! The entry of the program in the menu of the desktop.

use vstd::prelude::*;
use vstd::string::*;

use crate::text::{contains, cut_last, has_part, has_prefix, join, joined, lines, lines_of, rsplit_once, same, starts_with};

verus! {

/// The command that starts the window, from the file of the program.
pub open spec fn exec_of(appimage: Option<Seq<char>>, exe: Option<Seq<char>>) -> Seq<char> {
    match (appimage, exe) {
        (Some(path), _) => "\""@ + path + "\" gui"@,
        (None, Some(path)) => "\""@ + path + "\" gui"@,
        (None, None) => "neutron-vpn gui"@,
    }
}

/// The command that starts the window.
pub fn exec_command(appimage: Option<&str>, exe: Option<&str>) -> (r: String)
    ensures
        r@ == exec_of(crate::text::opt_view(appimage), crate::text::opt_view(exe)),
{
    match appimage {
        Some(path) => "\"".to_owned().concat(path).concat("\" gui"),
        None => match exe {
            Some(path) => "\"".to_owned().concat(path).concat("\" gui"),
            None => "neutron-vpn gui".to_owned(),
        },
    }
}

/// The entry of the program.
pub fn desktop_entry(exec: &str) -> (r: String)
    ensures
        r@
            == "[Desktop Entry]\nType=Application\nName=Neutron VPN\nComment=Manage VPN connections with NetworkManager\nExec="@
            + exec@
            + "\nIcon=io.gitlab.neutron_vpn.neutron\nTerminal=false\nCategories=Network;\nStartupNotify=true\nStartupWMClass=io.gitlab.neutron_vpn.neutron\nKeywords=vpn;wireguard;network;neutron;\n"@,
{
    "[Desktop Entry]\nType=Application\nName=Neutron VPN\nComment=Manage VPN connections with NetworkManager\nExec=".to_owned().concat(
        exec,
    ).concat(
        "\nIcon=io.gitlab.neutron_vpn.neutron\nTerminal=false\nCategories=Network;\nStartupNotify=true\nStartupWMClass=io.gitlab.neutron_vpn.neutron\nKeywords=vpn;wireguard;network;neutron;\n",
    )
}

/// Whether a file is an entry of another program.
pub open spec fn is_other_entry(file_name: Seq<char>) -> bool {
    match cut_last(file_name, '.') {
        Some((stem, extension)) => stem.len() > 0 && extension == "desktop"@ && file_name
            != "io.gitlab.neutron_vpn.neutron.desktop"@,
        None => false,
    }
}

/// Whether a file is an entry of another program.
pub fn other_entry(file_name: &str) -> (r: bool)
    ensures
        r == is_other_entry(file_name@),
{
    match rsplit_once(file_name, '.') {
        Some((stem, extension)) => !stem.is_empty() && same(extension, "desktop") && !same(
            file_name,
            "io.gitlab.neutron_vpn.neutron.desktop",
        ),
        None => false,
    }
}

/// A line of an entry, with the icon of the program in place of another.
pub open spec fn repaired_line(line: Seq<char>) -> Seq<char> {
    if has_prefix(line, "Icon="@) {
        "Icon=io.gitlab.neutron_vpn.neutron"@
    } else {
        line
    }
}

/// An entry with the icon of the program, line by line.
pub open spec fn repaired(content: Seq<char>) -> Seq<char> {
    joined(lines_of(content).map_values(|l: Seq<char>| repaired_line(l)), "\n"@) + "\n"@
}

/// What an entry is replaced with: an entry that claims the window of the program
/// gets its icon, so that whichever entry the desktop takes has one that loads.
/// Nothing where the entry is of another window or has the icon already.
pub fn repair_entry(content: &str) -> (r: Option<String>)
    ensures
        match r {
            Some(text) => has_part(
                content@,
                "StartupWMClass=io.gitlab.neutron_vpn.neutron"@,
            ) && text@ == repaired(content@) && text@ != content@,
            None => !has_part(content@, "StartupWMClass=io.gitlab.neutron_vpn.neutron"@)
                || repaired(content@) == content@,
        },
{
    if !contains(content, "StartupWMClass=io.gitlab.neutron_vpn.neutron") {
        return None;
    }
    let rows = lines(content);
    let ghost target = lines_of(content@).map_values(|l: Seq<char>| repaired_line(l));
    let mut out: Vec<String> = Vec::new();
    let mut i: usize = 0;
    while i < rows.len()
        invariant
            i <= rows.len(),
            rows.deep_view() == lines_of(content@),
            target == lines_of(content@).map_values(|l: Seq<char>| repaired_line(l)),
            out.deep_view() == target.take(i as int),
        decreases rows.len() - i,
    {
        assert(rows.deep_view()[i as int] == rows[i as int]@);
        let ghost before = out.deep_view();
        let line = if starts_with(rows[i], "Icon=") {
            "Icon=io.gitlab.neutron_vpn.neutron".to_owned()
        } else {
            rows[i].to_owned()
        };
        out.push(line);
        assert(out.deep_view() =~= before.push(target[i as int]));
        i += 1;
    }
    assert(target.take(i as int) =~= target);
    let list = out.as_slice();
    assert(list.deep_view() =~= out.deep_view());
    let text = join(list, "\n").concat("\n");
    if same(text.as_str(), content) {
        None
    } else {
        Some(text)
    }
}

/// Where the logo is looked for, in order.
pub open spec fn logo_paths_of(appdir: Option<Seq<char>>) -> Seq<Seq<char>> {
    (match appdir {
        Some(dir) => seq![
            dir + "/usr/share/icons/hicolor/scalable/apps/io.gitlab.neutron_vpn.neutron.svg"@,
            dir + "/io.gitlab.neutron_vpn.neutron.svg"@,
        ],
        None => Seq::empty(),
    }) + seq![
        "/app/share/icons/hicolor/scalable/apps/io.gitlab.neutron_vpn.neutron.svg"@,
        "resources/io.gitlab.neutron_vpn.neutron.svg"@,
    ]
}

/// Where the logo is looked for, in order.
pub fn logo_paths(appdir: Option<&str>) -> (r: Vec<String>)
    ensures
        r.deep_view() == logo_paths_of(crate::text::opt_view(appdir)),
{
    let mut r: Vec<String> = Vec::new();
    match appdir {
        Some(dir) => {
            r.push(
                dir.to_owned().concat(
                    "/usr/share/icons/hicolor/scalable/apps/io.gitlab.neutron_vpn.neutron.svg",
                ),
            );
            r.push(dir.to_owned().concat("/io.gitlab.neutron_vpn.neutron.svg"));
        },
        None => {},
    }
    r.push("/app/share/icons/hicolor/scalable/apps/io.gitlab.neutron_vpn.neutron.svg".to_owned());
    r.push("resources/io.gitlab.neutron_vpn.neutron.svg".to_owned());
    assert(r.deep_view() =~= logo_paths_of(crate::text::opt_view(appdir)));
    r
}

/// Where an icon is installed below the directory of data, by its size.
pub fn icon_path(size: &str, name: &str, extension: &str) -> (r: String)
    ensures
        r@ == "icons/hicolor/"@ + size@ + "/apps/"@ + name@ + "."@ + extension@,
{
    "icons/hicolor/".to_owned().concat(size).concat("/apps/").concat(name).concat(".").concat(
        extension,
    )
}

/// In an entry only the line of the icon changes.
pub proof fn law_only_the_icon_changes(line: Seq<char>, icon: Seq<char>)
    ensures
        repaired_line("Icon="@ + icon) == "Icon=io.gitlab.neutron_vpn.neutron"@,
        !has_prefix(line, "Icon="@) ==> repaired_line(line) == line,
{
    assert(("Icon="@ + icon).take("Icon="@.len() as int) =~= "Icon="@);
}

/// Entries of other programs are the files whose name ends in `.desktop`, but for the
/// entry of this one.
pub proof fn law_entries_of_others(stem: Seq<char>, extension: Seq<char>)
    requires
        !extension.contains('.'),
        stem.len() > 0,
    ensures
        is_other_entry(stem + "."@ + extension) <==> extension == "desktop"@ && stem
            != "io.gitlab.neutron_vpn.neutron"@,
{
    reveal_strlit(".");
    reveal_strlit("desktop");
    reveal_strlit("io.gitlab.neutron_vpn.neutron");
    reveal_strlit("io.gitlab.neutron_vpn.neutron.desktop");
    let name = stem + "."@ + extension;
    let at = stem.len() as int;
    crate::text::lemma_last_at(name, '.');
    assert(name[at] == '.');
    assert forall|k: int| at < k < name.len() implies name[k] != '.' by {
        assert(name[k] == extension[k - at - 1]);
        assert(extension.contains(extension[k - at - 1]));
    }
    assert(name.take(at) =~= stem);
    assert(name.skip(at + 1) =~= extension);
    let own = "io.gitlab.neutron_vpn.neutron.desktop"@;
    assert(own =~= "io.gitlab.neutron_vpn.neutron"@ + "."@ + "desktop"@);
    if name == own && extension == "desktop"@ {
        assert(stem =~= own.take(at));
        assert(own.take(at) =~= "io.gitlab.neutron_vpn.neutron"@);
    }
}

} // verus!
