//! Whether NetworkManager activates a profile on its own.
//!
//! NetworkManager activates every WireGuard profile at boot unless it is told
//! otherwise, which would defeat the selection of one random profile.

use vstd::prelude::*;
use vstd::string::*;

verus! {

/// The arguments of `nmcli` that set whether connection `uuid` comes up on its own.
pub open spec fn autoconnect_args(uuid: Seq<char>, enable: bool) -> Seq<Seq<char>> {
    seq![
        "connection"@,
        "modify"@,
        uuid,
        "connection.autoconnect"@,
        if enable {
            "yes"@
        } else {
            "no"@
        },
    ]
}

/// The arguments of `nmcli` that set whether connection `uuid` comes up on its own.
pub fn set_args(uuid: &str, enable: bool) -> (r: Vec<String>)
    ensures
        r.deep_view() == autoconnect_args(uuid@, enable),
{
    let value = if enable { "yes" } else { "no" };
    let r = vec![
        "connection".to_owned(),
        "modify".to_owned(),
        uuid.to_owned(),
        "connection.autoconnect".to_owned(),
        value.to_owned(),
    ];
    assert(r.deep_view() =~= autoconnect_args(uuid@, enable));
    r
}

} // verus!
