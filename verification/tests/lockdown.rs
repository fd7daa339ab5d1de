use std::cell::RefCell;

use neutron::error::AppError;
use neutron::firewall::helper::{
    action_directory, activation_request, authorization_args, authorization_error, enable_script,
    install_script, installed_files, is_installed, mark_activating, refresh_without_helper,
    teardown_script, uninstall_script, uninstall_statements, ACTION_ID, PATH,
};
use neutron::firewall::hosts::{hosts_to_resolve, resolve_hosts};
use neutron::firewall::rules::{drop_rule, local_networks};
use neutron::firewall::teardown::{
    disable_batches, enable_batches, helper_plan, listing_error, lists_marked_rule,
    marked_removal_batches, refresh_batches, teardown_outcome, Listings, Situation,
};
use neutron::firewall::{
    add_rule, build_firewall_script, direct_args, line_is_marked, lockdown_enable_batches,
    lockdown_family_batches, lockdown_rebuild_batches, parse_foreign_runtime_preservations,
    parse_marked_removals, reload_batch, rules_match, shell_quote, ResolvedHost, LOCKDOWN_MARKER,
};
use neutron::ip::IpAddr;
use neutron::nm::{Endpoint, ProfileState, WireguardProfile, WireguardTunnel};
use neutron::record::Recorder;

#[test]
fn every_rebuild_prefix_retains_complete_policy_or_guard() {
    let old = lockdown_enable_batches(&[tunnel("wg-old", &[])], &[]);
    let old_rules: Vec<_> = old.into_iter().filter(|b| b != &reload_batch()).collect();
    let removals = old_rules.iter().map(|b| expected_removal(b)).collect();
    let new_rules: Vec<_> = lockdown_enable_batches(&[tunnel("wg-new", &[])], &[])
        .into_iter()
        .filter(|b| b != &reload_batch())
        .collect();
    let mut installed = old_rules.clone();
    for batch in lockdown_rebuild_batches(removals, &[tunnel("wg-new", &[])], &[]) {
        if batch == reload_batch() {
            continue;
        }
        let mut add = batch.clone();
        add[2] = "--add-rule".into();
        if batch[2] == "--add-rule" {
            installed.push(add);
        } else {
            installed.retain(|b| b != &add);
        }
        for family in ["ipv4", "ipv6"] {
            let complete = |rules: &[Vec<String>]| {
                rules
                    .iter()
                    .filter(|b| b[3] == family)
                    .all(|b| installed.contains(b))
            };
            assert!(
                installed.contains(&add_rule(family, -1, &["-j", "DROP"]))
                    || complete(&old_rules)
                    || complete(&new_rules),
                "unprotected boundary: {batch:?}"
            );
        }
    }
    assert_eq!(installed, new_rules);
}

fn tunnel(interface: &str, endpoints: &[(&str, u16)]) -> WireguardTunnel {
    WireguardTunnel {
        interface: Some(interface.to_string()),
        endpoints: endpoints
            .iter()
            .map(|(host, port)| Endpoint {
                host: (*host).to_string(),
                port: *port,
            })
            .collect(),
        is_active: true,
    }
}

/// True when some batch contains every token in `fragment` (order- and
/// adjacency-independent). The marker `add_rule` injects interleaves with
/// the rule body, so we match by token presence rather than adjacency.
fn has_rule(batches: &[Vec<String>], fragment: &[&str]) -> bool {
    batches.iter().any(|batch| {
        fragment
            .iter()
            .all(|token| batch.iter().any(|arg| arg == token))
    })
}

/// Render an `--add-rule … <priority> <args>` batch exactly the way
/// `firewall-cmd --direct --get-rules` prints it back: `<priority> <args>`,
/// dropping the leading `--permanent --direct --add-rule <family> filter
/// OUTPUT` (6 tokens). Lets tests feed what we *installed* straight back
/// into the teardown parser to prove the round-trip.
fn as_get_rules_line(add_batch: &[String]) -> String {
    let prefix_len = direct_args("--add-rule", "ipv4", "mangle").len();
    add_batch[prefix_len..].join(" ")
}

/// The removal batch that must result from tearing down `add_batch`: the
/// identical argument vector with `--add-rule` swapped for `--remove-rule`.
fn expected_removal(add_batch: &[String]) -> Vec<String> {
    add_batch
        .iter()
        .map(|token| {
            if token == "--add-rule" {
                "--remove-rule".to_string()
            } else {
                token.clone()
            }
        })
        .collect()
}

#[test]
fn enable_batches_cover_both_families_and_reload_last() {
    let batches = lockdown_enable_batches(&[], &[]);

    assert!(
        batches
            .iter()
            .any(|batch| batch.contains(&"ipv4".to_string()))
    );
    assert!(
        batches
            .iter()
            .any(|batch| batch.contains(&"ipv6".to_string()))
    );
    assert_eq!(batches.last().expect("non-empty"), &reload_batch());
}

#[test]
fn enable_batches_allow_loopback_dns_and_drop_before_filter() {
    let batches = lockdown_enable_batches(&[], &[]);

    assert!(has_rule(&batches, &["-o", "lo", "-j", "ACCEPT"]));
    assert!(has_rule(&batches, &["--dport", "53"]));
    // The catch-all drop carries the recognizable marker.
    assert!(has_rule(&batches, &["--comment", LOCKDOWN_MARKER]));
    assert!(
        batches
            .iter()
            .any(|batch| batch.contains(&"DROP".to_string()) && batch[4] == "mangle")
    );
}

#[test]
fn disconnected_bootstrap_dns_and_connected_lan_dns_drop() {
    let mut inactive = tunnel("wg0", &[("vpn.example.com", 51820)]);
    inactive.is_active = false;
    let disconnected = lockdown_enable_batches(&[inactive], &[]);
    assert!(has_rule(&disconnected, &["--dport", "53", "-j", "ACCEPT"]));

    let active = lockdown_enable_batches(&[tunnel("wg0", &[("vpn.example.com", 51820)])], &[]);
    assert!(!has_rule(&active, &["--dport", "53", "-j", "ACCEPT"]));
    assert!(has_rule(&active, &["--dport", "53", "-j", "DROP"]));
}

#[test]
fn enable_batches_allow_tunnel_interface() {
    let batches = lockdown_enable_batches(&[tunnel("wg0", &[])], &[]);

    assert!(has_rule(&batches, &["-o", "wg0", "-j", "ACCEPT"]));
}

#[test]
fn ipv4_endpoint_is_pinned_only_in_ipv4_family() {
    let ipv4 = lockdown_family_batches("ipv4", &[tunnel("wg0", &[("1.2.3.4", 51820)])], &[]);
    let ipv6 = lockdown_family_batches("ipv6", &[tunnel("wg0", &[("1.2.3.4", 51820)])], &[]);

    assert!(has_rule(&ipv4, &["-d", "1.2.3.4", "--dport", "51820"]));
    // The IPv4 literal must not appear in the IPv6 ruleset.
    assert!(
        !ipv6
            .iter()
            .any(|batch| batch.contains(&"1.2.3.4".to_string()))
    );
}

#[test]
fn ipv6_endpoint_is_pinned_only_in_ipv6_family() {
    let ipv4 = lockdown_family_batches("ipv4", &[tunnel("wg0", &[("2001:db8::1", 51820)])], &[]);
    let ipv6 = lockdown_family_batches("ipv6", &[tunnel("wg0", &[("2001:db8::1", 51820)])], &[]);

    assert!(has_rule(&ipv6, &["-d", "2001:db8::1", "--dport", "51820"]));
    assert!(
        !ipv4
            .iter()
            .any(|batch| batch.contains(&"2001:db8::1".to_string()))
    );
}

#[test]
fn hostname_endpoint_pins_resolved_addresses() {
    let hosts = [ResolvedHost {
        host: "localhost".to_string(),
        addresses: vec![IpAddr::V4(0x7f00_0001), IpAddr::V6(1)],
    }];
    let ipv4 = lockdown_family_batches("ipv4", &[tunnel("wg0", &[("localhost", 1194)])], &hosts);
    let ipv6 = lockdown_family_batches("ipv6", &[tunnel("wg0", &[("localhost", 1194)])], &hosts);

    assert!(has_rule(&ipv4, &["-d", "127.0.0.1", "--dport", "1194"]));
    assert!(has_rule(&ipv6, &["-d", "::1", "--dport", "1194"]));
}

#[test]
fn local_networks_are_allowed_per_family() {
    // LAN destinations (router, printer, NAS, DHCP, mDNS) must stay
    // reachable under lockdown so a kill switch never breaks the local
    // network, even with no tunnels configured.
    let ipv4 = lockdown_family_batches("ipv4", &[], &[]);
    let ipv6 = lockdown_family_batches("ipv6", &[], &[]);

    for network in local_networks("ipv4") {
        assert!(
            has_rule(&ipv4, &["-d", network, "-j", "ACCEPT"]),
            "missing IPv4 local-network allow for {network}"
        );
    }
    for network in local_networks("ipv6") {
        assert!(
            has_rule(&ipv6, &["-d", network, "-j", "ACCEPT"]),
            "missing IPv6 local-network allow for {network}"
        );
    }
}

#[test]
fn local_networks_are_pinned_to_their_own_family() {
    // An IPv4 range must never land in the IPv6 chain (and vice versa) or
    // firewalld would reject the rule for the wrong address family.
    let ipv4 = lockdown_family_batches("ipv4", &[], &[]);
    let ipv6 = lockdown_family_batches("ipv6", &[], &[]);

    for network in local_networks("ipv4") {
        let in_ipv6 = ipv6
            .iter()
            .any(|batch| batch.contains(&network.to_string()));
        assert!(!in_ipv6, "IPv4 range {network} leaked into the IPv6 chain");
    }
    for network in local_networks("ipv6") {
        let in_ipv4 = ipv4
            .iter()
            .any(|batch| batch.contains(&network.to_string()));
        assert!(!in_ipv4, "IPv6 range {network} leaked into the IPv4 chain");
    }
}

#[test]
fn every_lockdown_rule_is_tagged_with_the_marker() {
    // Surgical teardown depends on *every* rule carrying the marker, not
    // just the reject, so the whole ruleset can be removed by tag.
    for batch in lockdown_enable_batches(&[tunnel("wg0", &[("1.2.3.4", 51820)])], &[]) {
        assert!(
            batch == reload_batch() || batch.contains(&LOCKDOWN_MARKER.to_string()),
            "every non-reload batch must be tagged: {batch:?}"
        );
    }
}

#[test]
fn parse_marked_removals_skips_foreign_rules() {
    // A `--get-rules` listing mixing a user's own rule with two of ours.
    let listing = "\
0 -o eth0 -j DROP
0 -o lo -m comment --comment neutron-lockdown -j ACCEPT
10 -m comment --comment neutron-lockdown -j REJECT
";
    let removals = parse_marked_removals("ipv4", "filter", listing);

    // Only the two tagged rules are removed; the foreign `eth0` rule is left.
    assert_eq!(removals.len(), 2);
    assert!(
        removals
            .iter()
            .all(|batch| batch.contains(&"--remove-rule".to_string()))
    );
    assert!(
        !removals
            .iter()
            .any(|batch| batch.contains(&"eth0".to_string()))
    );
}

#[test]
fn parse_marked_removals_round_trips_priority_and_args() {
    // The removal must mirror `--get-rules` output verbatim: priority slot
    // followed by the exact iptables args, so `--remove-rule` matches.
    let listing = "10 -m comment --comment neutron-lockdown -j REJECT\n";

    let removals = parse_marked_removals("ipv6", "filter", listing);

    assert_eq!(
        removals,
        vec![vec![
            "--permanent".to_string(),
            "--direct".to_string(),
            "--remove-rule".to_string(),
            "ipv6".to_string(),
            "filter".to_string(),
            "OUTPUT".to_string(),
            "10".to_string(),
            "-m".to_string(),
            "comment".to_string(),
            "--comment".to_string(),
            LOCKDOWN_MARKER.to_string(),
            "-j".to_string(),
            "REJECT".to_string(),
        ]]
    );
}

#[test]
fn parse_marked_removals_ignores_blank_lines() {
    assert!(parse_marked_removals("ipv4", "mangle", "\n   \n").is_empty());
}

#[test]
fn get_rules_batch_is_permanent_and_scoped_to_output() {
    assert_eq!(
        direct_args("--get-rules", "ipv4", "mangle"),
        vec![
            "--permanent".to_string(),
            "--direct".to_string(),
            "--get-rules".to_string(),
            "ipv4".to_string(),
            "mangle".to_string(),
            "OUTPUT".to_string(),
        ]
    );
}

#[test]
fn every_rule_batch_is_permanent() {
    // Permanence (across reboots) is part of the lockdown guarantee, so
    // every add/remove batch must carry `--permanent` (only `--reload`
    // does not).
    for batch in lockdown_enable_batches(&[tunnel("wg0", &[("1.2.3.4", 51820)])], &[]) {
        assert!(
            batch == reload_batch() || batch.contains(&"--permanent".to_string()),
            "non-reload batch must be permanent: {batch:?}"
        );
    }
}

#[test]
fn line_is_marked_requires_an_exact_marker_token() {
    // Ours: carries the marker as a standalone token.
    assert!(line_is_marked(
        "0 -o lo -m comment --comment neutron-lockdown -j ACCEPT"
    ));
    // Foreign with no marker at all.
    assert!(!line_is_marked("0 -o eth0 -j DROP"));
    // A comment that only *contains* the marker as a substring is not ours;
    // matching whole tokens stops us from removing a foreign look-alike.
    assert!(!line_is_marked(
        "0 --comment neutron-lockdown-custom -j DROP"
    ));
    assert!(!line_is_marked("0 --comment not-neutron-lockdown -j DROP"));
}

#[test]
fn parse_marked_removals_ignores_a_foreign_rule_with_its_own_comment() {
    // A foreign rule that uses the comment match with a *different* comment
    // must be left alone: teardown keys off our exact marker, not the mere
    // presence of a `--comment`.
    let listing = "\
0 -o lo -m comment --comment other-app -j ACCEPT
10 -m comment --comment neutron-lockdown -j REJECT
";
    let removals = parse_marked_removals("ipv4", "filter", listing);

    assert_eq!(removals.len(), 1);
    assert!(
        !removals
            .iter()
            .any(|batch| batch.contains(&"other-app".to_string()))
    );
    assert!(removals[0].contains(&LOCKDOWN_MARKER.to_string()));
}

#[test]
fn teardown_removals_are_individually_targeted_never_chain_wide() {
    // Regression guard: every teardown batch removes one specific rule
    // (`--remove-rule`), never the chain-wide `--remove-rules` that would
    // drop foreign rules along with ours.
    let listing = "\
0 -o lo -m comment --comment neutron-lockdown -j ACCEPT
10 -m comment --comment neutron-lockdown -j REJECT
";
    let removals = parse_marked_removals("ipv4", "filter", listing);

    assert!(!removals.is_empty());
    for batch in &removals {
        assert!(batch.contains(&"--remove-rule".to_string()));
        assert!(!batch.contains(&"--remove-rules".to_string()));
    }
}

#[test]
fn every_installed_rule_round_trips_to_its_own_removal() {
    // The core safety property: each rule we install can be torn down by
    // tag, and the teardown targets *exactly* that rule (same family,
    // priority and args). We render every installed rule the way
    // `--get-rules` echoes it back, parse it, and require the result to be
    // precisely that one rule's targeted removal — proving teardown only
    // ever touches what we added.
    let tunnels = [tunnel(
        "wg0",
        &[("1.2.3.4", 51820), ("vpn.example.com", 1194)],
    )];
    for add in lockdown_enable_batches(&tunnels, &[]) {
        if add == reload_batch() {
            continue;
        }
        let family = &add[3];
        let removals = parse_marked_removals(family, &add[4], &as_get_rules_line(&add));
        assert_eq!(
            removals,
            vec![expected_removal(&add)],
            "installed rule must tear down to exactly its own removal: {add:?}"
        );
    }
}

#[test]
fn shell_quote_wraps_plain_values_in_single_quotes() {
    assert_eq!(shell_quote("wg0"), "'wg0'");
    assert_eq!(shell_quote("--add-rule"), "'--add-rule'");
    assert_eq!(shell_quote("1.2.3.4"), "'1.2.3.4'");
}

#[test]
fn shell_quote_neutralizes_metacharacters_and_embedded_quotes() {
    // Shell metacharacters become literal text inside the single quotes.
    assert_eq!(
        shell_quote("a; rm -rf /"),
        "'a; rm -rf /'",
        "semicolons must not start a new command"
    );
    assert_eq!(shell_quote("$(reboot)"), "'$(reboot)'");
    assert_eq!(shell_quote("`reboot`"), "'`reboot`'");
    // An embedded single quote is closed, escaped, and reopened.
    assert_eq!(shell_quote("it's"), "'it'\\''s'");
}

#[test]
fn build_firewall_script_aborts_on_error_and_quotes_every_argument() {
    let batches = vec![
        vec!["--reload".to_string()],
        vec!["-o".to_string(), "wg0".to_string()],
    ];
    let script = build_firewall_script(&batches);

    // `set -e` stops subsequent commands after a failure.
    assert!(script.starts_with("set -e\n"));
    // One `firewall-cmd` line per batch, each argument single-quoted.
    assert!(script.contains("\nfirewall-cmd '--reload'\n"));
    assert!(script.contains("\nfirewall-cmd '-o' 'wg0'\n"));
}

#[test]
fn build_firewall_script_cannot_be_broken_out_of_by_profile_values() {
    // A malicious interface/host name must stay a single argument and never
    // become its own shell command, even though the script is `sh`-parsed.
    let batches = vec![vec![
        "-o".to_string(),
        "wg0'; reboot; echo '".to_string(),
        "-j".to_string(),
        "ACCEPT".to_string(),
    ]];
    let script = build_firewall_script(&batches);

    // The whole rule renders to exactly one `firewall-cmd` line in which the
    // injected `reboot` is sealed inside a single-quoted word: every `'` in
    // the value is emitted as the inert `'\''` sequence, so it can never
    // close the quote early and start a new command.
    assert_eq!(
        script,
        "set -e\nfirewall-cmd '-o' 'wg0'\\''; reboot; echo '\\''' '-j' 'ACCEPT'\n"
    );
}

#[test]
fn build_firewall_script_of_no_batches_is_just_the_guard() {
    assert_eq!(build_firewall_script(&[]), "set -e\n");
}

#[test]
fn parse_foreign_runtime_preservations_captures_unmarked_runtime_only_rules() {
    let runtime = "ipv4 filter OUTPUT 0 -p tcp --dport 8080 -j DROP\n\
                   ipv4 mangle OUTPUT -1 -m comment --comment neutron-lockdown -j DROP\n\
                   ipv6 filter OUTPUT 10 -j ACCEPT\n";
    let permanent = "ipv6 filter OUTPUT 10 -j ACCEPT\n";

    let batches = parse_foreign_runtime_preservations(runtime, permanent);
    assert_eq!(batches.len(), 1);
    assert_eq!(
        batches[0],
        vec![
            "--direct",
            "--add-rule",
            "ipv4",
            "filter",
            "OUTPUT",
            "0",
            "-p",
            "tcp",
            "--dport",
            "8080",
            "-j",
            "DROP",
        ]
    );
}

#[test]
fn parse_foreign_runtime_preservations_ignores_empty_or_all_permanent() {
    let runtime = "ipv4 filter OUTPUT 0 -j DROP\n";
    let permanent = "ipv4 filter OUTPUT 0 -j DROP\n";
    assert!(parse_foreign_runtime_preservations(runtime, permanent).is_empty());
    assert!(parse_foreign_runtime_preservations("", "").is_empty());
}

/// The batches that change rules.
fn without_reload(batches: Vec<Vec<String>>) -> Vec<Vec<String>> {
    batches.into_iter().filter(|b| b != &reload_batch()).collect()
}

#[test]
fn authorization_check_is_unprivileged_and_noninteractive() {
    let args = authorization_args(4242);
    assert_eq!(args, ["--action-id", ACTION_ID, "--process", "4242"]);
}

#[test]
fn action_directory_supports_old_polkit_and_immutable_usr() {
    for version in ["pkaction version 0.105", "pkaction version 125"] {
        assert_eq!(
            action_directory(version).unwrap(),
            "/usr/share/polkit-1/actions"
        );
    }
    for version in ["pkaction version 126", "pkaction version 127\n"] {
        assert_eq!(
            action_directory(version).unwrap(),
            "/usr/local/share/polkit-1/actions"
        );
    }
    assert!(action_directory("unexpected output").is_err());
    assert!(action_directory("").is_err());
}

#[test]
fn teardown_revokes_every_installed_file_and_never_aborts() {
    let statements = uninstall_statements();

    // Every path an install writes must be swept, whatever polkit version
    // wrote it, and the authorization must go before the binary it allows.
    let revoked: Vec<_> = statements
        .iter()
        .filter_map(|statement| statement.strip_prefix("rm -f -- "))
        .map(|statement| statement.trim_end_matches(" || true"))
        .collect();
    assert_eq!(revoked, installed_files());
    assert!(
        revoked[0].ends_with(".policy") && revoked[1].ends_with(".policy"),
        "authorization is revoked first: {revoked:?}"
    );
    assert_eq!(*revoked.last().unwrap(), PATH);

    // Every top-level statement is best effort, so `set -e` cannot abort
    // teardown before `is_installed` reports a real leftover.
    for statement in &statements {
        assert!(
            statement.ends_with("|| true"),
            "unguarded teardown statement: {statement}"
        );
    }
    // And the script is exactly those statements, nothing smuggled between.
    assert_eq!(
        uninstall_script(),
        format!("{}\n", statements.join("\n")),
        "the script must not add unguarded commands"
    );
}

#[test]
fn restored_rules_are_a_noop_but_dns_changes_and_missing_rules_are_not() {
    let disconnected = without_reload(lockdown_enable_batches(&[], &[]));
    let mut restored: Vec<_> = disconnected
        .iter()
        .map(|b| {
            let mut b = b.clone();
            b[2] = "--remove-rule".into();
            b
        })
        .collect();
    restored.reverse();
    assert!(rules_match(&restored, &disconnected));
    let connected = without_reload(lockdown_enable_batches(
        &[WireguardTunnel {
            interface: Some("wg0".into()),
            is_active: true,
            ..Default::default()
        }],
        &[],
    ));
    assert!(!rules_match(&restored, &connected));
    restored.pop();
    assert!(!rules_match(&restored, &disconnected));
    assert!(!rules_match(&[], &disconnected));
}


#[test]
fn the_rules_are_replaced_behind_a_guard() {
    let tunnels = [tunnel("wg0", &[])];
    let batches = lockdown_rebuild_batches(Vec::new(), &tunnels, &[]);
    assert_eq!(batches[0], add_rule("ipv4", -1, &["-j", "DROP"]));
    assert_eq!(batches[1], add_rule("ipv6", -1, &["-j", "DROP"]));
    assert_eq!(batches[0], drop_rule("ipv4", -1));
}

#[test]
fn every_family_ends_with_a_drop() {
    for family in ["ipv4", "ipv6"] {
        let rules = lockdown_family_batches(family, &[tunnel("wg0", &[("1.2.3.4", 1)])], &[]);
        let last = rules.last().expect("rules");
        assert_eq!(last.last().map(String::as_str), Some("DROP"));
    }
}

#[test]
fn enabling_and_disabling_go_through_the_marked_rules() {
    let listings = Listings {
        ipv4_mangle: "10 -m comment --comment neutron-lockdown -j DROP\n".to_string(),
        ipv4_filter: "0 -o eth0 -j DROP\n".to_string(),
        ipv6_mangle: String::new(),
        ipv6_filter: String::new(),
    };
    let removals = marked_removal_batches(&listings);
    assert_eq!(removals.len(), 1);
    assert_eq!(removals[0][3], "ipv4");
    assert_eq!(removals[0][4], "mangle");

    let foreign = vec!["--direct".to_string(), "--add-rule".to_string()];
    let disable = disable_batches(removals.clone(), vec![foreign.clone()]);
    assert_eq!(
        disable,
        vec![removals[0].clone(), reload_batch(), foreign.clone()]
    );

    let enable = enable_batches(removals, &[], &[], vec![foreign.clone()]);
    assert_eq!(enable.last(), Some(&foreign));
    assert!(enable.contains(&reload_batch()));
}

#[test]
fn a_teardown_is_checked() {
    let looked = RefCell::new(Vec::new());
    let check = |ipv4: bool, ipv6: bool| {
        looked.borrow_mut().clear();
        teardown_outcome(&mut Recorder::new(|family: &str| {
            looked.borrow_mut().push(family.to_string());
            Ok(if family == "ipv4" { ipv4 } else { ipv6 })
        }))
    };
    assert!(check(false, false).is_ok());
    assert_eq!(*looked.borrow(), vec!["ipv4", "ipv6"]);
    assert!(matches!(
        check(false, true),
        Err(AppError::Firewall(m)) if m.contains("ipv6")
    ));
    assert!(matches!(
        check(true, true),
        Err(AppError::Firewall(m)) if m.contains("ipv4")
    ));
    assert_eq!(*looked.borrow(), vec!["ipv4"]);
    let unread = teardown_outcome(&mut Recorder::new(|_: &str| Err(AppError::NoActiveProfile)));
    assert!(matches!(unread, Err(AppError::NoActiveProfile)));
    assert!(lists_marked_rule("0 --comment neutron-lockdown -j DROP"));
    assert!(matches!(
        listing_error("ipv4", "  "),
        AppError::Firewall(m) if m == "firewall-cmd --get-rules (ipv4) failed"
    ));
    assert!(matches!(
        listing_error("ipv4", " denied\n"),
        AppError::Firewall(m) if m == "denied"
    ));
}

#[test]
fn a_refresh_of_rules_that_match_does_nothing() {
    let tunnels = [tunnel("wg0", &[("1.2.3.4", 51820)])];
    let rules = without_reload(lockdown_enable_batches(&tunnels, &[]));
    let removals: Vec<Vec<String>> = rules.iter().map(|b| expected_removal(b)).collect();
    assert!(refresh_batches(removals.clone(), removals.clone(), &tunnels, &[]).is_empty());
    // A tunnel that changed is not the same rules.
    let other = [tunnel("wg1", &[])];
    assert!(!refresh_batches(removals.clone(), removals, &other, &[]).is_empty());
}

#[test]
fn the_helper_refreshes_only_a_lockdown_that_is_on() {
    let rules = |name: &str| -> Vec<Vec<String>> {
        without_reload(lockdown_enable_batches(&[tunnel(name, &[])], &[]))
            .iter()
            .map(|b| expected_removal(b))
            .collect()
    };
    let situation = |name: &str| {
        Ok(Situation {
            runtime: rules("wg0"),
            tunnels: vec![tunnel(name, &[])],
            hosts: Vec::new(),
        })
    };
    // Off: nothing else is looked at.
    let plan = helper_plan(Vec::new(), || panic!("the lockdown is off"));
    assert!(matches!(plan, Ok(None)));
    // On and in line with the tunnels.
    assert!(matches!(helper_plan(rules("wg0"), || situation("wg0")), Ok(None)));
    // On and out of date.
    assert_eq!(
        helper_plan(rules("wg0"), || situation("wg1")).unwrap(),
        Some(refresh_batches(rules("wg0"), rules("wg0"), &[tunnel("wg1", &[])], &[]))
    );
    let failed = helper_plan(rules("wg0"), || Err(AppError::NoActiveProfile));
    assert!(matches!(failed, Err(AppError::NoActiveProfile)));
}

#[test]
fn a_guard_that_was_left_is_found_again() {
    for family in ["ipv4", "ipv6"] {
        let guard = drop_rule(family, -1);
        let line = guard[6..].join(" ");
        assert!(line.starts_with("-1 "));
        assert_eq!(
            parse_marked_removals(family, "mangle", &line),
            vec![expected_removal(&guard)]
        );
    }
}

#[test]
fn the_helper_is_installed_from_one_script() {
    let script = install_script("/opt/neutron", "/usr/local/share/polkit-1/actions");
    assert!(script.contains("install -m 755 -- '/opt/neutron'"));
    assert!(script.contains("kill -HUP"));
    let old = install_script("/opt/neutron", "/usr/share/polkit-1/actions");
    assert!(!old.contains("kill -HUP"));
    assert!(is_installed(&mut Recorder::new(|path: &str| path == PATH)));
    let looked = RefCell::new(Vec::new());
    let mut nowhere = Recorder::new(|path: &str| {
        looked.borrow_mut().push(path.to_string());
        false
    });
    assert!(!is_installed(&mut nowhere));
    assert_eq!(*looked.borrow(), installed_files());
}

#[test]
fn an_activation_is_asked_for_by_identifier() {
    assert_eq!(activation_request("").unwrap(), None);
    let uuid = "0d1c2b3a-1111-2222-3333-444455556666";
    assert_eq!(activation_request(uuid).unwrap(), Some(uuid.to_string()));
    assert!(matches!(
        activation_request("wg0; reboot"),
        Err(AppError::Firewall(m)) if m == "Invalid activation UUID"
    ));

    let profiles = vec![WireguardProfile {
        name: "home".to_string(),
        uuid: uuid.to_string(),
        state: ProfileState::Inactive,
    }];
    let mut tunnels = vec![tunnel("wg0", &[])];
    tunnels[0].is_active = false;
    mark_activating(&mut tunnels, &profiles, uuid, Some("wg0")).unwrap();
    assert!(tunnels[0].is_active);
    assert!(mark_activating(&mut tunnels, &profiles, "other", Some("wg0")).is_err());

    assert!(refresh_without_helper(true).is_ok());
    assert!(matches!(refresh_without_helper(false), Err(AppError::Firewall(_))));
    assert!(matches!(authorization_error("no"), AppError::Firewall(m) if m.contains(": no. Run")));
}

#[test]
fn the_grant_goes_only_where_that_is_asked_for() {
    let removals = || vec![expected_removal(&drop_rule("ipv4", 10))];
    let foreign = || vec![vec!["--direct".to_string()]];
    let rules = build_firewall_script(&disable_batches(removals(), foreign()));
    assert_eq!(teardown_script(removals(), foreign(), false), rules);
    assert!(!rules.contains(PATH));
    assert_eq!(
        teardown_script(removals(), foreign(), true),
        rules + &uninstall_script()
    );
    let tunnels = [tunnel("wg0", &[])];
    let actions = "/usr/share/polkit-1/actions";
    assert_eq!(
        enable_script(removals(), &tunnels, &[], foreign(), "/opt/neutron", actions),
        build_firewall_script(&enable_batches(removals(), &tunnels, &[], foreign()))
            + &install_script("/opt/neutron", actions)
    );
}

#[test]
fn only_host_names_are_resolved_and_each_once() {
    let tunnels = [
        tunnel("wg0", &[("vpn.example", 51820), ("1.2.3.4", 51820)]),
        tunnel("wg1", &[("2001:db8::1", 1), ("other.example", 2), ("vpn.example", 3)]),
    ];
    assert_eq!(hosts_to_resolve(&tunnels), vec!["vpn.example", "other.example"]);
    let asked = RefCell::new(Vec::new());
    let mut lookup = Recorder::new(|host: &str| {
        asked.borrow_mut().push(host.to_string());
        if host == "vpn.example" {
            Some(vec![IpAddr::V4(1), IpAddr::V4(2), IpAddr::V4(1)])
        } else {
            None
        }
    });
    assert_eq!(
        resolve_hosts(&tunnels, &mut lookup),
        vec![
            ResolvedHost {
                host: "vpn.example".to_string(),
                addresses: vec![IpAddr::V4(1), IpAddr::V4(2)],
            },
            ResolvedHost {
                host: "other.example".to_string(),
                addresses: Vec::new(),
            },
        ]
    );
    assert_eq!(*asked.borrow(), vec!["vpn.example", "other.example"]);
}

#[test]
fn a_marked_rule_of_any_priority_is_found_again() {
    for priority in [-7, 0, 3, 1000] {
        let rule = add_rule("ipv4", priority, &["-d", "10.0.0.0/8", "-j", "ACCEPT"]);
        assert_eq!(
            parse_marked_removals("ipv4", "mangle", &rule[6..].join(" ")),
            vec![expected_removal(&rule)]
        );
    }
}
