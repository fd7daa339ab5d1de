//! NetworkManager's automatic default route for WireGuard tunnels.
//!
//! It is what makes a full tunnel carry traffic at all. The property is set
//! explicitly on every managed profile and never left at NetworkManager's own
//! default, under which a tunnel may come up without any routes.

use vstd::prelude::*;
use vstd::string::*;

verus! {

/// The value that is set on every managed profile.
pub const AUTO_DEFAULT_ROUTE: &'static str = "yes";

/// The value for IPv6: a profile without IPv6 must not take its default route.
pub open spec fn v6_auto_route(has_ipv6: bool) -> Seq<char> {
    if has_ipv6 {
        "yes"@
    } else {
        "no"@
    }
}

/// The arguments of `nmcli` that set the automatic default route on connection
/// `uuid`.
pub open spec fn routing_args(uuid: Seq<char>, has_ipv6: bool) -> Seq<Seq<char>> {
    seq![
        "connection"@,
        "modify"@,
        uuid,
        "wireguard.ip4-auto-default-route"@,
        "yes"@,
        "wireguard.ip6-auto-default-route"@,
        v6_auto_route(has_ipv6),
    ]
}

/// The arguments of `nmcli` that set the automatic default route on connection
/// `uuid`.
pub fn set_args(uuid: &str, has_ipv6: bool) -> (r: Vec<String>)
    ensures
        r.deep_view() == routing_args(uuid@, has_ipv6),
{
    let v6_auto = if has_ipv6 { AUTO_DEFAULT_ROUTE } else { "no" };
    let r = vec![
        "connection".to_owned(),
        "modify".to_owned(),
        uuid.to_owned(),
        "wireguard.ip4-auto-default-route".to_owned(),
        AUTO_DEFAULT_ROUTE.to_owned(),
        "wireguard.ip6-auto-default-route".to_owned(),
        v6_auto.to_owned(),
    ];
    assert(r.deep_view() =~= routing_args(uuid@, has_ipv6));
    r
}

/// The value that is set is neither NetworkManager's default nor `no`.
pub proof fn law_never_left_at_the_default()
    ensures
        AUTO_DEFAULT_ROUTE@ != "default"@,
        AUTO_DEFAULT_ROUTE@ != "no"@,
{
    reveal_strlit("yes");
    reveal_strlit("default");
    reveal_strlit("no");
    assert("yes"@.len() == 3 && "default"@.len() == 7 && "no"@.len() == 2);
}

} // verus!
