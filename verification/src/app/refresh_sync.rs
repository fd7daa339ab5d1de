//! When the list of profiles is read again.

use vstd::prelude::*;

use crate::text::{ascii_lowered, contains, has_part, has_prefix, is_space, law_trimming, to_ascii_lowercase, trim, trimmed};

verus! {

/// Whether a line of the monitor tells of a change that matters: of a connection,
/// a device, a tunnel or a VPN.
pub open spec fn tells_change(line: Seq<char>) -> bool {
    let t = ascii_lowered(trimmed(line));
    has_part(t, "connection"@) || has_part(t, "device"@) || has_part(t, "wireguard"@) || has_part(
        t,
        "vpn"@,
    )
}

/// Whether a line of NetworkManager's monitor calls for a refresh.
pub fn should_refresh_from_nm_monitor_line(line: &str) -> (r: bool)
    ensures
        r == tells_change(line@),
{
    let normalized = to_ascii_lowercase(trim(line));
    let t = normalized.as_str();
    contains(t, "connection") || contains(t, "device") || contains(t, "wireguard") || contains(
        t,
        "vpn",
    )
}

/// A line that names a connection, a device, a tunnel or a VPN tells of a change, in
/// whatever case and wherever in the line.
pub proof fn law_changes_are_told(before: Seq<char>, word: Seq<char>, after: Seq<char>)
    requires
        before.len() > 0 && !is_space(before[0]),
        after.len() > 0 && !is_space(after.last()),
        ascii_lowered(word) == "connection"@ || ascii_lowered(word) == "device"@ || ascii_lowered(
            word,
        ) == "wireguard"@ || ascii_lowered(word) == "vpn"@,
    ensures
        tells_change(before + word + after),
{
    let s = before + word + after;
    let none = Seq::<char>::empty();
    law_trimming(none, s, none);
    assert(none + s + none =~= s);
    let t = ascii_lowered(s);
    let n = before.len() as int;
    let w = ascii_lowered(word);
    assert(t.skip(n).take(w.len() as int) =~= w);
    assert(has_prefix(t.skip(n), w));
}

} // verus!
