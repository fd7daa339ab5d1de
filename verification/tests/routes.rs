use neutron::config::SplitTunnelMode;
use neutron::ip::IpAddr;
use neutron::nm::resolve::{distinct, lookup_host, resolve_domain_ips, resolve_domains};
use neutron::nm::split_tunnel::{
    collect_all_routes, complement_routes, network_address, never_default_for, normalize_domain,
    parse_and_normalize_cidr, partition_routes, routes_for, set_args, subtract_into, to_ranges,
};
use neutron::record::Recorder;

#[test]
fn normalize_domain_trims_and_lowercases() {
    assert_eq!(
        normalize_domain("  EXAMPLE.COM  "),
        Some("example.com".to_string())
    );
    assert_eq!(normalize_domain(""), None);
    assert_eq!(normalize_domain("   "), None);
}

#[test]
fn parse_and_normalize_valid_cidrs() {
    assert_eq!(
        parse_and_normalize_cidr("10.0.0.0/8").unwrap(),
        ("10.0.0.0/8".to_string(), true)
    );
    assert_eq!(
        parse_and_normalize_cidr("192.168.1.50").unwrap(),
        ("192.168.1.50/32".to_string(), true)
    );
    assert_eq!(
        parse_and_normalize_cidr("2001:db8::/32").unwrap(),
        ("2001:db8::/32".to_string(), false)
    );
    assert_eq!(
        parse_and_normalize_cidr("fe80::1").unwrap(),
        ("fe80::1/128".to_string(), false)
    );
}

#[test]
fn parse_and_normalize_rejects_invalid() {
    assert!(parse_and_normalize_cidr("").is_err());
    assert!(parse_and_normalize_cidr("999.999.999.999").is_err());
    assert!(parse_and_normalize_cidr("10.0.0.0/33").is_err());
    assert!(parse_and_normalize_cidr("2001:db8::/129").is_err());
    assert!(parse_and_normalize_cidr("example.com").is_err());
}

#[test]
fn partition_routes_separates_v4_and_v6() {
    let input = [
        "10.0.0.0/8",
        "2001:db8::/32",
        "192.168.1.1",
        "::1",
        "invalid",
    ];
    let (v4, v6) = partition_routes(&input);

    assert_eq!(v4, vec!["10.0.0.0/8", "192.168.1.1/32"]);
    assert_eq!(v6, vec!["2001:db8::/32", "::1/128"]);
}

/// Whether `address` is inside any of `routes`.
fn routed(routes: &[String], address: &str) -> bool {
    let target: u128 = match IpAddr::parse(address).expect("test address should parse") {
        IpAddr::V4(v4) => v4 as u128,
        IpAddr::V6(v6) => v6,
    };
    let want_v6 = address.contains(':');
    to_ranges(routes, want_v6)
        .iter()
        .any(|(start, end)| *start <= target && target <= *end)
}

#[test]
fn set_args_include_mode() {
    let args = set_args(
        "test-uuid",
        SplitTunnelMode::Include,
        &["10.0.0.0/8".to_string(), "192.168.0.0/16".to_string()],
        &["2001:db8::/32".to_string()],
    );

    assert_eq!(args[0], "connection");
    assert_eq!(args[1], "modify");
    assert_eq!(args[2], "test-uuid");
    assert_eq!(args[3], "ipv4.never-default");
    assert_eq!(args[4], "yes");
    assert_eq!(args[5], "ipv6.never-default");
    assert_eq!(args[6], "yes");
    assert_eq!(args[7], "ipv4.routes");
    assert_eq!(args[8], "10.0.0.0/8, 192.168.0.0/16");
    assert_eq!(args[9], "ipv6.routes");
    assert_eq!(args[10], "2001:db8::/32");
}

#[test]
fn a_family_with_no_routes_keeps_its_default_route() {
    // Regression: `never-default` was set for both families whenever split
    // tunneling was on, even for a family with an empty route list. That
    // family was then barred from the tunnel's default route while having
    // no route of its own -- a black hole. Splitting on IPv4-only domains
    // (github.com and friends) killed all IPv6 traffic exactly this way.
    let args = set_args(
        "uuid-1",
        SplitTunnelMode::Include,
        &["140.82.121.4/32".to_string()],
        &[],
    );

    assert_eq!(args[3], "ipv4.never-default");
    assert_eq!(args[4], "yes", "IPv4 has routes, so it is split");
    assert_eq!(args[5], "ipv6.never-default");
    assert_eq!(
        args[6], "no",
        "IPv6 has no routes, so it must keep the ordinary default route \
         instead of being left with nowhere to go"
    );
    assert_eq!(args[10], "", "and no IPv6 routes are written");
}

#[test]
fn the_mirrored_case_keeps_ipv4_working() {
    let args = set_args(
        "uuid-1",
        SplitTunnelMode::Include,
        &[],
        &["2001:db8::1/128".to_string()],
    );

    assert_eq!(args[4], "no", "IPv4 has no routes, so it must keep working");
    assert_eq!(args[6], "yes");
}

#[test]
fn both_families_are_split_when_both_have_routes() {
    let args = set_args(
        "uuid-1",
        SplitTunnelMode::Include,
        &["10.0.0.0/8".to_string()],
        &["2001:db8::/32".to_string()],
    );

    assert_eq!(args[4], "yes");
    assert_eq!(args[6], "yes");
}

#[test]
fn no_family_is_ever_barred_from_routing_with_an_empty_route_list() {
    // The invariant behind the bug, checked across every mode: a family may
    // only be barred from the default route if it has somewhere else to go.
    for mode in [
        SplitTunnelMode::Disabled,
        SplitTunnelMode::Include,
        SplitTunnelMode::Exclude,
    ] {
        for (v4, v6) in [
            (vec![], vec![]),
            (vec!["10.0.0.0/8".to_string()], vec![]),
            (vec![], vec!["2001:db8::/32".to_string()]),
            (
                vec!["10.0.0.0/8".to_string()],
                vec!["2001:db8::/32".to_string()],
            ),
        ] {
            let args = set_args("uuid-1", mode, &v4, &v6);
            for (never_default, routes, family) in
                [(&args[4], &args[8], "ipv4"), (&args[6], &args[10], "ipv6")]
            {
                if never_default == "yes" {
                    assert!(
                        !routes.is_empty(),
                        "{mode:?} left {family} barred from the default route with no \
                         routes of its own, which black-holes that family"
                    );
                }
            }
        }
    }
}

#[test]
fn set_args_disabled_mode_clears_routes_and_restores_the_default_route() {
    // Stale routes left behind would keep steering traffic after the user
    // turned split tunneling off.
    let args = set_args(
        "test-uuid",
        SplitTunnelMode::Disabled,
        &["10.0.0.0/8".to_string()],
        &["2001:db8::/32".to_string()],
    );

    assert_eq!(args[4], "no");
    assert_eq!(args[6], "no");
    assert_eq!(args[8], "");
    assert_eq!(args[10], "");
}

#[test]
fn normalization_clears_host_bits() {
    // "Normalize" has to mean the network address, not just the prefix
    // glued back on -- see `exclude_mode_masks_an_unaligned_cidr`.
    assert_eq!(
        parse_and_normalize_cidr("10.1.2.3/8").unwrap(),
        ("10.0.0.0/8".to_string(), true)
    );
    assert_eq!(
        parse_and_normalize_cidr("192.168.1.77/24").unwrap(),
        ("192.168.1.0/24".to_string(), true)
    );
    assert_eq!(
        parse_and_normalize_cidr("2001:db8:dead:beef::1/32").unwrap(),
        ("2001:db8::/32".to_string(), false)
    );
    // A /0 masks to the whole space, and a host route is unchanged.
    assert_eq!(
        parse_and_normalize_cidr("8.8.8.8/0").unwrap(),
        ("0.0.0.0/0".to_string(), true)
    );
    assert_eq!(
        parse_and_normalize_cidr("192.168.1.50/32").unwrap(),
        ("192.168.1.50/32".to_string(), true)
    );
}

#[test]
fn exclude_mode_masks_an_unaligned_cidr() {
    // Regression: the range start was taken verbatim while its end was
    // derived by setting the host bits, so excluding "10.1.2.3/8" only
    // excluded 10.1.2.3 upwards -- and 10.0.0.0-10.1.2.2 was still routed
    // into the tunnel the user had excluded it from.
    let (v4, _) = routes_for(SplitTunnelMode::Exclude, &["10.1.2.3/8".to_string()], &[]);

    for address in ["10.0.0.0", "10.1.2.2", "10.1.2.3", "10.255.255.255"] {
        assert!(
            !routed(&v4, address),
            "{address} is inside the excluded /8 and must not be tunneled: {v4:?}"
        );
    }
    assert!(routed(&v4, "9.255.255.255") && routed(&v4, "11.0.0.0"));
}

#[test]
fn complement_ignores_prefixes_too_wide_for_the_family() {
    // `complement_routes` is public, so a malformed entry must be skipped
    // rather than underflow the block-width arithmetic.
    assert_eq!(
        complement_routes(&["10.0.0.0/64".to_string()], false),
        vec!["0.0.0.0/0".to_string()]
    );
}

#[test]
fn exclude_mode_keeps_the_excluded_range_off_the_tunnel() {
    // Regression: Exclude was a copy of Include, so it put the excluded
    // range into `ipv4.routes` -- routing it *through* the VPN, the exact
    // opposite of excluding it.
    let (v4, _) = routes_for(SplitTunnelMode::Exclude, &["10.0.0.0/8".to_string()], &[]);

    assert!(
        !routed(&v4, "10.1.2.3"),
        "an excluded address must not be routed into the tunnel: {v4:?}"
    );
    assert!(
        routed(&v4, "1.1.1.1") && routed(&v4, "192.168.1.1") && routed(&v4, "9.255.255.255"),
        "everything else must still go through the tunnel: {v4:?}"
    );
}

#[test]
fn exclude_mode_covers_the_boundaries_of_the_excluded_block() {
    let (v4, _) = routes_for(
        SplitTunnelMode::Exclude,
        &["192.168.1.0/24".to_string()],
        &[],
    );

    // The addresses immediately outside the block stay tunneled, and both
    // edges inside it stay excluded.
    assert!(routed(&v4, "192.168.0.255"));
    assert!(!routed(&v4, "192.168.1.0"));
    assert!(!routed(&v4, "192.168.1.255"));
    assert!(routed(&v4, "192.168.2.0"));
}

#[test]
fn exclude_mode_handles_several_disjoint_ranges() {
    let (v4, _) = routes_for(
        SplitTunnelMode::Exclude,
        &["10.0.0.0/8".to_string(), "172.16.0.0/12".to_string()],
        &[],
    );

    assert!(!routed(&v4, "10.0.0.1"));
    assert!(!routed(&v4, "172.16.5.5"));
    assert!(!routed(&v4, "172.31.255.255"));
    assert!(routed(&v4, "172.32.0.0"));
    assert!(routed(&v4, "8.8.8.8"));
}

#[test]
fn exclude_mode_with_nothing_excluded_is_a_full_tunnel() {
    let (v4, v6) = routes_for(SplitTunnelMode::Exclude, &[], &[]);

    assert_eq!(v4, vec!["0.0.0.0/0".to_string()]);
    assert_eq!(v6, vec!["::/0".to_string()]);
}

#[test]
fn excluding_everything_leaves_no_routes_at_all() {
    let (v4, _) = routes_for(SplitTunnelMode::Exclude, &["0.0.0.0/0".to_string()], &[]);

    assert!(
        v4.is_empty(),
        "nothing may be routed into the tunnel: {v4:?}"
    );
}

#[test]
fn exclude_mode_families_do_not_leak_into_each_other() {
    // An IPv4-only exclusion must not shrink the IPv6 routes, and the
    // complement of each family must stay in that family.
    let (v4, v6) = routes_for(SplitTunnelMode::Exclude, &["10.0.0.0/8".to_string()], &[]);

    assert_eq!(v6, vec!["::/0".to_string()]);
    assert!(v4.iter().all(|route| !route.contains(':')));
}

#[test]
fn exclude_mode_complements_ipv6_ranges() {
    let (_, v6) = routes_for(
        SplitTunnelMode::Exclude,
        &["2001:db8::/32".to_string()],
        &[],
    );

    assert!(!routed(&v6, "2001:db8::1"));
    assert!(routed(&v6, "2001:db9::1"));
    assert!(routed(&v6, "::1"));
}

#[test]
fn complement_routes_are_valid_normalized_cidrs() {
    // The result is fed straight to `nmcli`, so every entry must be a CIDR
    // NetworkManager accepts.
    let (v4, v6) = routes_for(
        SplitTunnelMode::Exclude,
        &["10.11.12.13/32".to_string(), "2001:db8::/48".to_string()],
        &[],
    );

    for route in v4.iter().chain(v6.iter()) {
        parse_and_normalize_cidr(route)
            .unwrap_or_else(|e| panic!("'{route}' should be a valid CIDR: {e}"));
    }
}

#[test]
fn include_mode_routes_exactly_what_was_asked_for() {
    let (v4, v6) = routes_for(
        SplitTunnelMode::Include,
        &["10.0.0.0/8".to_string(), "2001:db8::/32".to_string()],
        &[],
    );

    assert_eq!(v4, vec!["10.0.0.0/8".to_string()]);
    assert_eq!(v6, vec!["2001:db8::/32".to_string()]);
}

#[test]
fn disabled_mode_produces_no_routes() {
    let (v4, v6) = routes_for(SplitTunnelMode::Disabled, &["10.0.0.0/8".to_string()], &[]);

    assert!(v4.is_empty());
    assert!(v6.is_empty());
}

#[test]
fn collect_all_routes_combines_cidrs_and_resolved() {
    let cidrs = vec!["10.0.0.0/8".to_string(), "2001:db8::/32".to_string()];
    // What `localhost` resolves to.
    let addresses = vec![IpAddr::V4(0x7f00_0001), IpAddr::V6(1)];
    let (v4, v6) = collect_all_routes(&cidrs, &addresses);

    assert!(v4.contains(&"10.0.0.0/8".to_string()));
    assert!(v6.contains(&"2001:db8::/32".to_string()));
    // localhost resolves to 127.0.0.1 and/or ::1
    assert!(v4.contains(&"127.0.0.1/32".to_string()) || v6.contains(&"::1/128".to_string()));
}

#[test]
fn routes_of_a_split_cover_every_address_once() {
    // Every address is either excluded or routed: checked around the edges.
    let excluded = vec!["10.0.0.0/8".to_string(), "10.128.0.0/9".to_string()];
    let (v4, _) = routes_for(SplitTunnelMode::Exclude, &excluded, &[]);
    let ranges = to_ranges(&v4, false);
    for pair in ranges.windows(2) {
        assert!(pair[0].1 < pair[1].0, "routes overlap: {v4:?}");
    }
    let covered: u128 = ranges.iter().map(|(start, end)| end - start + 1).sum();
    assert_eq!(covered, (1u128 << 32) - (1u128 << 24));
}

#[test]
fn a_network_address_has_no_host_bits() {
    assert_eq!(
        network_address(IpAddr::V4(0x0a01_0203), 8),
        IpAddr::V4(0x0a00_0000)
    );
    assert_eq!(network_address(IpAddr::V6(5), 0), IpAddr::V6(0));
    assert_eq!(network_address(IpAddr::V6(5), 128), IpAddr::V6(5));
    assert_eq!(never_default_for(SplitTunnelMode::Include, &[]), "no");
    assert_eq!(
        never_default_for(SplitTunnelMode::Exclude, &["::/1".to_string()]),
        "yes"
    );
}

#[test]
fn domains_are_lowercased_in_every_script() {
    assert_eq!(
        normalize_domain(" B\u{dc}CHER.example ").as_deref(),
        Some("b\u{fc}cher.example")
    );
}

#[test]
fn a_domain_is_normalized_once() {
    for text in ["  EXAMPLE.COM  ", "a.b", "\tSub.Example.ORG\n"] {
        let once = normalize_domain(text).unwrap();
        assert_eq!(normalize_domain(&once), Some(once.clone()));
    }
    assert_eq!(normalize_domain("\t \n"), None);
}

#[test]
fn the_complement_of_a_block_has_one_route_for_each_bit() {
    // No fewer blocks hold exactly what one block of that prefix leaves.
    assert_eq!(complement_routes(&["10.0.0.0/8".to_string()], false).len(), 8);
    assert_eq!(complement_routes(&["0.0.0.0/1".to_string()], false), vec!["128.0.0.0/1"]);
    // Two blocks that make up a larger one leave what that one leaves.
    assert_eq!(
        complement_routes(&["10.0.0.0/9".to_string(), "10.128.0.0/9".to_string()], false),
        complement_routes(&["10.0.0.0/8".to_string()], false)
    );
}

#[test]
fn a_domain_is_looked_up_once() {
    let asked = std::cell::RefCell::new(Vec::new());
    let mut lookup = Recorder::new(|host: &str| {
        asked.borrow_mut().push(host.to_string());
        if host == "nowhere.example" {
            return None;
        }
        Some(vec![IpAddr::V4(7), IpAddr::V6(7), IpAddr::V4(7)])
    });
    assert_eq!(
        resolve_domain_ips("  a.example ", &mut lookup),
        vec![IpAddr::V4(7), IpAddr::V6(7)]
    );
    assert!(resolve_domain_ips("nowhere.example", &mut lookup).is_empty());
    assert!(resolve_domain_ips(" \t", &mut lookup).is_empty());
    assert_eq!(*asked.borrow(), vec!["a.example", "nowhere.example"]);
    let domains = vec!["a.example".to_string(), "".to_string(), "b.example".to_string()];
    assert_eq!(resolve_domains(&domains, &mut lookup).len(), 4);
    assert_eq!(asked.borrow().len(), 4);
    assert_eq!(lookup_host(" x "), Some("x".to_string()));
    assert_eq!(distinct(&[IpAddr::V4(2), IpAddr::V4(1), IpAddr::V4(2)]).len(), 2);
}

#[test]
fn what_is_left_of_a_block_stays_inside_it() {
    // 10.0.0.0/8 without 10.128.0.0/10.
    let mut left = Vec::new();
    let excluded = [(0x0a80_0000u128, 0x0abf_ffffu128)];
    subtract_into(0x0a00_0000, 8, 32, &excluded, &mut left);
    assert_eq!(left, vec![(0x0a00_0000, 9), (0x0ac0_0000, 10)]);
}
