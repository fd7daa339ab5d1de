use std::cell::Cell;

use neutron::nm::health::{
    interface_exists, probe_step, probe_with, ProbeStep, TunnelHealth, PROBE_ATTEMPTS,
    PROBE_WINDOW_MS,
};
use neutron::nm::kill_switch::{DEFAULT_DNS_PRIORITY, ENABLED_DNS_PRIORITY};
use neutron::nm::tunnel_routing::AUTO_DEFAULT_ROUTE;
use neutron::nm::{autoconnect, kill_switch, tunnel_routing};
use neutron::record::Recorder;

#[test]
fn set_args_disable_targets_uuid_and_turns_autoconnect_off() {
    let args = autoconnect::set_args("uuid-1", false);

    assert_eq!(
        args,
        vec![
            "connection".to_string(),
            "modify".to_string(),
            "uuid-1".to_string(),
            "connection.autoconnect".to_string(),
            "no".to_string(),
        ]
    );
}

#[test]
fn set_args_enable_turns_autoconnect_on() {
    let args = autoconnect::set_args("uuid-2", true);

    assert_eq!(args[2], "uuid-2");
    assert_eq!(args[3], "connection.autoconnect");
    assert_eq!(args[4], "yes");
}

#[test]
fn any_authenticated_byte_means_the_peer_answered() {
    // Measured against a real peer: the handshake response alone is
    // accounted as 92 bytes, and that is the whole signal.
    let health = probe_with(PROBE_ATTEMPTS, &mut Recorder::new(|_: &()| 92));

    assert_eq!(health, TunnelHealth::Handshaken);
}

#[test]
fn a_counter_that_never_moves_is_reported_dead() {
    // Regression: a profile whose peer never answers activates cleanly and
    // then swallows every packet, because the full tunnel owns the default
    // route. That must be detected, not reported as "Connected".
    let health = probe_with(PROBE_ATTEMPTS, &mut Recorder::new(|_: &()| 0));

    assert_eq!(health, TunnelHealth::NoHandshake);
}

#[test]
fn an_idle_tunnel_that_handshook_once_stays_healthy() {
    // Regression for the disconnect bug: an established tunnel carrying no
    // user traffic never moves its counter again, so requiring *growth*
    // rather than a non-zero latch declared healthy tunnels dead. One
    // handshake is enough, forever.
    let samples = Cell::new(0);
    let health = probe_with(
        PROBE_ATTEMPTS,
        &mut Recorder::new(|_: &()| {
            samples.set(samples.get() + 1);
            92 // Never grows: exactly what a real idle tunnel does.
        }),
    );

    assert_eq!(health, TunnelHealth::Handshaken);
    assert_eq!(samples.get(), 1, "a live tunnel must short-circuit");
}

#[test]
fn the_probe_window_covers_several_handshake_retries() {
    // WireGuard retries an unanswered handshake every 5s. A window that did
    // not span several retries would call a slow-but-live peer dead.
    assert!(
        PROBE_WINDOW_MS >= 15_000,
        "the window must cover at least three handshake retries"
    );

    let samples = Cell::new(0);
    let health = probe_with(
        PROBE_ATTEMPTS,
        &mut Recorder::new(|_: &()| {
            samples.set(samples.get() + 1);
            0
        }),
    );

    assert_eq!(health, TunnelHealth::NoHandshake);
    assert_eq!(samples.get(), PROBE_ATTEMPTS as i32);
}

#[test]
fn only_a_handshake_counts_as_healthy() {
    assert!(TunnelHealth::Handshaken.is_healthy());
    assert!(!TunnelHealth::NoHandshake.is_healthy());
}

#[test]
fn the_probe_never_depends_on_a_third_party_host() {
    // Regression: the probe used to accept `ping 1.1.1.1` as a liveness
    // signal, so filtered ICMP or an unreachable third party disconnected a
    // perfectly healthy tunnel. `probe_with` takes exactly one closure --
    // this tunnel's own counter -- and reintroducing another signal breaks
    // this call.
    let health = probe_with(1, &mut Recorder::new(|_: &()| 1));

    assert_eq!(health, TunnelHealth::Handshaken);
}

#[test]
fn set_args_pins_both_families_when_ipv6_is_enabled() {
    let args = tunnel_routing::set_args("uuid-1", true);

    assert_eq!(args[0], "connection");
    assert_eq!(args[1], "modify");
    assert_eq!(args[2], "uuid-1");
    assert_eq!(args[3], "wireguard.ip4-auto-default-route");
    assert_eq!(args[4], "yes");
    assert_eq!(args[5], "wireguard.ip6-auto-default-route");
    assert_eq!(args[6], "yes");
}

#[test]
fn set_args_disables_ipv6_auto_default_when_ipv6_is_absent() {
    let args = tunnel_routing::set_args("uuid-1", false);

    assert_eq!(args[3], "wireguard.ip4-auto-default-route");
    assert_eq!(args[4], "yes");
    assert_eq!(args[5], "wireguard.ip6-auto-default-route");
    assert_eq!(args[6], "no");
}

#[test]
fn the_pinned_value_is_never_networkmanagers_default() {
    // Regression: leaving this at `default` meant NetworkManager installed
    // no routes, so activating a profile exposed the real IP while the UI
    // reported a working connection.
    assert_ne!(AUTO_DEFAULT_ROUTE, "default");
    assert_ne!(AUTO_DEFAULT_ROUTE, "no");
}

#[test]
fn enable_args_target_the_uuid_and_force_routing_on() {
    let args = kill_switch::set_args("uuid-1", true, true);

    assert_eq!(args[0], "connection");
    assert_eq!(args[1], "modify");
    assert_eq!(args[2], "uuid-1");
    assert!(window_contains(
        &args,
        "wireguard.ip4-auto-default-route",
        "yes"
    ));
    assert!(window_contains(
        &args,
        "wireguard.ip6-auto-default-route",
        "yes"
    ));
    assert!(window_contains(
        &args,
        "ipv4.dns-priority",
        ENABLED_DNS_PRIORITY
    ));
    assert!(window_contains(
        &args,
        "ipv6.dns-priority",
        ENABLED_DNS_PRIORITY
    ));
}

#[test]
fn disable_args_restore_default_dns_priority() {
    let args = kill_switch::set_args("uuid-1", false, true);

    assert_eq!(args[2], "uuid-1");
    assert!(window_contains(
        &args,
        "ipv4.dns-priority",
        DEFAULT_DNS_PRIORITY
    ));
    assert!(window_contains(
        &args,
        "ipv6.dns-priority",
        DEFAULT_DNS_PRIORITY
    ));
}

#[test]
fn disabling_the_kill_switch_keeps_the_tunnel_routing() {
    // Regression: disabling used to write `auto-default-route = default`,
    // which made NetworkManager install no routes at all -- the profile
    // connected, the UI said "Connected", and traffic kept leaving over the
    // physical interface with the real IP exposed.
    let args = kill_switch::set_args("uuid-1", false, true);

    for family in [
        "wireguard.ip4-auto-default-route",
        "wireguard.ip6-auto-default-route",
    ] {
        assert!(
            window_contains(&args, family, AUTO_DEFAULT_ROUTE),
            "{family} must stay pinned when the kill switch is off: {args:?}"
        );
        assert!(!window_contains(&args, family, "default"));
    }
}

#[test]
fn both_states_route_identically_and_differ_only_in_dns() {
    let enabled = kill_switch::set_args("uuid-1", true, true);
    let disabled = kill_switch::set_args("uuid-1", false, true);

    let differing: Vec<_> = enabled
        .iter()
        .zip(&disabled)
        .filter(|(a, b)| a != b)
        .map(|(a, b)| (a.as_str(), b.as_str()))
        .collect();

    assert_eq!(
        differing,
        vec![
            (ENABLED_DNS_PRIORITY, DEFAULT_DNS_PRIORITY),
            (ENABLED_DNS_PRIORITY, DEFAULT_DNS_PRIORITY),
        ],
        "only the DNS priority may differ between the two states"
    );
}

#[test]
fn ipv6_is_not_forced_when_ipv6_is_absent() {
    let args = kill_switch::set_args("uuid-1", true, false);

    assert!(window_contains(
        &args,
        "wireguard.ip6-auto-default-route",
        "no"
    ));
    assert!(window_contains(
        &args,
        "ipv6.dns-priority",
        DEFAULT_DNS_PRIORITY
    ));
}

#[test]
fn enable_and_disable_toggle_the_same_properties() {
    let enable = kill_switch::set_args("uuid-1", true, true);
    let disable = kill_switch::set_args("uuid-1", false, true);

    // Disabling must touch exactly the same properties, in the same order,
    // that enabling sets. Otherwise the kill switch could leave a property
    // stuck at its enabled value with no way to revert it to the
    // NetworkManager default.
    assert_eq!(enable.len(), disable.len());
    assert_eq!(property_keys(&enable), property_keys(&disable));
}

/// True when `args` contains `key` immediately followed by `value`.
fn window_contains(args: &[String], key: &str, value: &str) -> bool {
    args.windows(2)
        .any(|pair| pair[0] == key && pair[1] == value)
}

/// The property names from an `nmcli connection modify <uuid> k v k v ...`
/// argument list. The first three slots are the `connection modify <uuid>`
/// prefix; after that, keys and values alternate, so the keys are every
/// other slot starting at index 3.
fn property_keys(args: &[String]) -> Vec<String> {
    args[3..].iter().step_by(2).cloned().collect()
}

#[test]
fn one_sample_decides_or_asks_for_another() {
    assert_eq!(probe_step(1, 0), ProbeStep::Done(TunnelHealth::Handshaken));
    assert_eq!(probe_step(0, 3), ProbeStep::Again);
    assert_eq!(probe_step(0, 0), ProbeStep::Done(TunnelHealth::NoHandshake));
    assert_eq!(probe_with(0, &mut Recorder::new(|_: &()| 1)), TunnelHealth::NoHandshake);
    let statistics = "Inter-| Receive\n face |bytes\n  wg0: 0 0 0 0 0 0 0 0 0 0\n";
    assert!(interface_exists(statistics, "wg0"));
    assert!(!interface_exists(statistics, "wg1"));
}
