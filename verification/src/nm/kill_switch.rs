//! The kill switch, by means of NetworkManager's own properties.
//!
//! The routing half of the guarantee is set on every profile whether or not the
//! kill switch is on, since without it the tunnel would carry nothing. What the
//! kill switch itself controls is name resolution: a negative priority gives the
//! tunnel's resolvers exclusive use.

use vstd::prelude::*;
use vstd::string::*;

use crate::nm::tunnel_routing::{v6_auto_route, AUTO_DEFAULT_ROUTE};

verus! {

/// The DNS priority of the tunnel while the kill switch is on.
pub const ENABLED_DNS_PRIORITY: &'static str = "-1500";

/// The DNS priority of the tunnel while the kill switch is off.
pub const DEFAULT_DNS_PRIORITY: &'static str = "0";

/// The DNS priority of one family.
pub open spec fn dns_priority(enabled: bool) -> Seq<char> {
    if enabled {
        "-1500"@
    } else {
        "0"@
    }
}

/// The arguments of `nmcli` that turn the kill switch on or off on connection
/// `uuid`.
pub open spec fn kill_switch_args(uuid: Seq<char>, enable: bool, has_ipv6: bool) -> Seq<Seq<char>> {
    seq![
        "connection"@,
        "modify"@,
        uuid,
        "wireguard.ip4-auto-default-route"@,
        "yes"@,
        "wireguard.ip6-auto-default-route"@,
        v6_auto_route(has_ipv6),
        "ipv4.dns-priority"@,
        dns_priority(enable),
        "ipv6.dns-priority"@,
        dns_priority(enable && has_ipv6),
    ]
}

/// The arguments of `nmcli` that turn the kill switch on or off on connection
/// `uuid`. The automatic default route is set alike in both states.
pub fn set_args(uuid: &str, enable: bool, has_ipv6: bool) -> (r: Vec<String>)
    ensures
        r.deep_view() == kill_switch_args(uuid@, enable, has_ipv6),
{
    let priority = if enable { ENABLED_DNS_PRIORITY } else { DEFAULT_DNS_PRIORITY };
    let v6_priority = if enable && has_ipv6 {
        ENABLED_DNS_PRIORITY
    } else {
        DEFAULT_DNS_PRIORITY
    };
    let v6_auto = if has_ipv6 { AUTO_DEFAULT_ROUTE } else { "no" };
    let r = vec![
        "connection".to_owned(),
        "modify".to_owned(),
        uuid.to_owned(),
        "wireguard.ip4-auto-default-route".to_owned(),
        AUTO_DEFAULT_ROUTE.to_owned(),
        "wireguard.ip6-auto-default-route".to_owned(),
        v6_auto.to_owned(),
        "ipv4.dns-priority".to_owned(),
        priority.to_owned(),
        "ipv6.dns-priority".to_owned(),
        v6_priority.to_owned(),
    ];
    assert(r.deep_view() =~= kill_switch_args(uuid@, enable, has_ipv6));
    r
}

/// Both states set the same properties in the same order, route alike, and
/// differ in the DNS priorities only; the routing property is never left at
/// NetworkManager's default.
pub proof fn law_states_differ_in_dns_only(uuid: Seq<char>, has_ipv6: bool, i: int)
    requires
        0 <= i < kill_switch_args(uuid, true, has_ipv6).len(),
    ensures
        kill_switch_args(uuid, true, has_ipv6).len() == kill_switch_args(uuid, false, has_ipv6).len(),
        i != 8 && i != 10 ==> kill_switch_args(uuid, true, has_ipv6)[i] == kill_switch_args(
            uuid,
            false,
            has_ipv6,
        )[i],
        kill_switch_args(uuid, true, has_ipv6)[8] != kill_switch_args(uuid, false, has_ipv6)[8],
        kill_switch_args(uuid, true, has_ipv6)[4] != "default"@,
        kill_switch_args(uuid, true, has_ipv6)[6] != "default"@,
{
    reveal_strlit("-1500");
    reveal_strlit("0");
    reveal_strlit("yes");
    reveal_strlit("no");
    reveal_strlit("default");
    assert("-1500"@.len() == 5 && "0"@.len() == 1);
    assert("yes"@.len() == 3 && "default"@.len() == 7 && "no"@.len() == 2);
}

} // verus!
