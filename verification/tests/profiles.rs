use std::cell::{Cell, RefCell};

use neutron::config::AppConfig;
use neutron::error::{AppError, AppResult};
use neutron::ip::IpAddr;
use neutron::nm::health::TunnelHealth;
use neutron::nm::{
    autoconnect, autoconnect_arg_batches, extract_endpoints, extract_interface_comments, find_unique_profile_by_identifier, find_unique_profile_by_name,
    format_bytes, format_handshake_time, kill_switch, kill_switch_arg_batches, overlay_wg_dump,
    parse_endpoint, parse_interface_name, parse_nmcli_fields, parse_nmcli_triplet,
    parse_peer_settings, settings_to_diagnostics, unescape_nmcli, Endpoint, PeerSettings,
    CliNmClient, ProfileState, WireguardProfile,
};

fn profile(name: &str, uuid: &str) -> WireguardProfile {
    WireguardProfile {
        name: name.to_string(),
        uuid: uuid.to_string(),
        state: ProfileState::Inactive,
    }
}

#[test]
fn returns_not_found_for_missing_name() {
    let profiles = vec![profile("wg-us", "uuid-1")];

    let result = find_unique_profile_by_name(&profiles, "wg-eu");

    assert!(matches!(result, Err(AppError::ProfileNotFound(name)) if name == "wg-eu"));
}

#[test]
fn returns_ambiguous_for_duplicate_name() {
    let profiles = vec![profile("wg-us", "uuid-1"), profile("wg-us", "uuid-2")];

    let result = find_unique_profile_by_name(&profiles, "wg-us");

    assert!(matches!(
        result,
        Err(AppError::AmbiguousProfileName(name)) if name == "wg-us"
    ));
}

#[test]
fn returns_matching_profile_for_unique_name() {
    let profiles = vec![profile("wg-us", "uuid-1"), profile("wg-eu", "uuid-2")];

    let result =
        find_unique_profile_by_name(&profiles, "wg-eu").expect("unique profile should resolve");

    assert_eq!(result.uuid, "uuid-2");
}

#[test]
fn returns_profile_by_uuid_identifier() {
    let profiles = vec![profile("wg-us", "uuid-1"), profile("wg-eu", "uuid-2")];

    let result = find_unique_profile_by_identifier(&profiles, "uuid-2")
        .expect("uuid should resolve directly");

    assert_eq!(result.name, "wg-eu");
}

#[test]
fn parses_escaped_colons_in_nmcli_output() {
    let line = r"wg\:us:uuid-1:wireguard";

    let parsed = parse_nmcli_triplet(line).expect("line should parse");

    assert_eq!(parsed.0, "wg:us");
    assert_eq!(parsed.1, "uuid-1");
    assert_eq!(parsed.2, "wireguard");
}

#[test]
fn fails_on_invalid_nmcli_triplet() {
    let result = parse_nmcli_triplet("only-two:fields");

    assert!(matches!(result, Err(AppError::NmParseFailed(_))));
}

#[test]
fn preserves_trailing_backslash_in_nmcli_fields() {
    let fields = parse_nmcli_fields(r"value\");

    assert_eq!(fields, vec![r"value\".to_string()]);
}

#[test]
fn interface_name_treats_empty_and_dash_as_absent() {
    assert_eq!(parse_interface_name("wg0"), Some("wg0".to_string()));
    // nmcli prints surrounding whitespace that must be trimmed.
    assert_eq!(parse_interface_name("  wg0  "), Some("wg0".to_string()));
    // An empty value or the `--` placeholder means "no interface set".
    assert_eq!(parse_interface_name(""), None);
    assert_eq!(parse_interface_name("--"), None);
}

#[test]
fn extracts_ipv4_endpoint_from_peer_value() {
    let endpoints = extract_endpoints("endpoint = 1.2.3.4:51820, allowed-ips = 0.0.0.0/0");

    assert_eq!(
        endpoints,
        vec![Endpoint {
            host: "1.2.3.4".to_string(),
            port: 51820,
        }]
    );
}

#[test]
fn extracts_multiple_peer_endpoints() {
    // NetworkManager lists each peer; every `endpoint` marker is collected.
    let endpoints = extract_endpoints("endpoint=1.2.3.4:51820; endpoint=vpn.example.com:1194;");

    assert_eq!(
        endpoints,
        vec![
            Endpoint {
                host: "1.2.3.4".to_string(),
                port: 51820,
            },
            Endpoint {
                host: "vpn.example.com".to_string(),
                port: 1194,
            },
        ]
    );
}

#[test]
fn extracts_bracketed_ipv6_endpoint() {
    // Bracketed IPv6 literals must keep the address intact (the port follows
    // the closing bracket, not the last colon inside the address).
    let endpoints = extract_endpoints("endpoint = [2001:db8::1]:51820");

    assert_eq!(
        endpoints,
        vec![Endpoint {
            host: "2001:db8::1".to_string(),
            port: 51820,
        }]
    );
}

#[test]
fn ignores_peers_without_endpoints() {
    assert!(extract_endpoints("allowed-ips = 0.0.0.0/0").is_empty());
}

#[test]
fn extracts_nmcli_escaped_ip_endpoint_as_a_pinnable_literal() {
    // Regression: `nmcli -g` escapes the port separator, so the host kept a
    // trailing backslash, failed to parse as an IP, and was treated as a
    // hostname -- which lockdown could only allow by port, opening
    // UDP/51820 to every host instead of just the VPN peer.
    let raw = "KEY= allowed-ips=0.0.0.0/0;\\:\\:/0 endpoint=79.127.154.1\\:51820 persistent-keepalive=25";

    let endpoints = extract_endpoints(raw);

    assert_eq!(endpoints.len(), 1, "{endpoints:?}");
    assert_eq!(endpoints[0].host, "79.127.154.1");
    assert_eq!(endpoints[0].port, 51820);
    assert!(
        IpAddr::parse(&endpoints[0].host).is_some(),
        "host must parse as an IP so the firewall can pin it"
    );
}

#[test]
fn unescape_nmcli_removes_escapes_and_keeps_plain_text() {
    assert_eq!(unescape_nmcli("1.2.3.4\\:51820"), "1.2.3.4:51820");
    assert_eq!(
        unescape_nmcli("[2001\\:db8\\:\\:1]\\:51820"),
        "[2001:db8::1]:51820"
    );
    assert_eq!(
        unescape_nmcli("vpn.example.com:1194"),
        "vpn.example.com:1194"
    );
    // A literal backslash arrives doubled.
    assert_eq!(unescape_nmcli("a\\\\b"), "a\\b");
}

#[test]
fn parse_endpoint_rejects_malformed_tokens() {
    // Missing port, empty host, and non-numeric port are all rejected.
    assert_eq!(parse_endpoint("1.2.3.4"), None);
    assert_eq!(parse_endpoint(":51820"), None);
    assert_eq!(parse_endpoint("host:notaport"), None);
    assert_eq!(parse_endpoint("[2001:db8::1]"), None);
}

#[test]
fn kill_switch_arg_batches_target_every_profile_to_enable() {
    let profiles = vec![
        profile("wg-us", "uuid-1"),
        profile("wg-eu", "uuid-2"),
        profile("wg-as", "uuid-3"),
    ];

    let batches = kill_switch_arg_batches(&profiles, true, &[false, false, false]);

    // One batch per profile: the kill switch is global, so every profile is
    // modified, each targeting its own UUID with the enable arguments.
    assert_eq!(batches.len(), 3);
    for (batch, uuid) in batches.iter().zip(["uuid-1", "uuid-2", "uuid-3"]) {
        assert_eq!(batch, &kill_switch::set_args(uuid, true, false));
    }
}

#[test]
fn kill_switch_arg_batches_target_every_profile_to_disable() {
    let profiles = vec![profile("wg-us", "uuid-1"), profile("wg-eu", "uuid-2")];

    let batches = kill_switch_arg_batches(&profiles, false, &[false, false]);

    assert_eq!(batches.len(), 2);
    assert_eq!(batches[0], kill_switch::set_args("uuid-1", false, false));
    assert_eq!(batches[1], kill_switch::set_args("uuid-2", false, false));
}

#[test]
fn kill_switch_arg_batches_is_empty_without_profiles() {
    // No profiles means no `nmcli` calls at all (rather than an error).
    assert!(kill_switch_arg_batches(&[], true, &[]).is_empty());
    assert!(kill_switch_arg_batches(&[], false, &[]).is_empty());
}

#[test]
fn autoconnect_arg_batches_target_every_profile_to_disable() {
    let profiles = vec![
        profile("wg-us", "uuid-1"),
        profile("wg-eu", "uuid-2"),
        profile("wg-as", "uuid-3"),
    ];

    let batches = autoconnect_arg_batches(&profiles, false);

    // One batch per profile: autoconnect is a global concern, so every
    // profile is modified, each targeting its own UUID.
    assert_eq!(batches.len(), 3);
    for (batch, uuid) in batches.iter().zip(["uuid-1", "uuid-2", "uuid-3"]) {
        assert_eq!(batch, &autoconnect::set_args(uuid, false));
    }
}

#[test]
fn autoconnect_arg_batches_target_every_profile_to_enable() {
    let profiles = vec![profile("wg-us", "uuid-1"), profile("wg-eu", "uuid-2")];

    let batches = autoconnect_arg_batches(&profiles, true);

    assert_eq!(batches.len(), 2);
    assert_eq!(batches[0], autoconnect::set_args("uuid-1", true));
    assert_eq!(batches[1], autoconnect::set_args("uuid-2", true));
}

#[test]
fn autoconnect_arg_batches_is_empty_without_profiles() {
    // No profiles means no `nmcli` calls at all (rather than an error).
    assert!(autoconnect_arg_batches(&[], true).is_empty());
    assert!(autoconnect_arg_batches(&[], false).is_empty());
}

/// Run the command lines with `run` in place of `nmcli`.
fn apply_to_every_profile<N: Fn(&[String]) -> AppResult<String>>(
    profiles: &[WireguardProfile],
    batches: Vec<Vec<String>>,
    run: N,
) -> AppResult<()> {
    let mut client = CliNmClient::new(
        run,
        || None,
        |_: &Vec<String>| Vec::<IpAddr>::new(),
        |_: &str| false,
        |_: &str| TunnelHealth::Handshaken,
        |_: &AppConfig| Ok(()),
    );
    client.apply_to_every_profile(profiles, batches)
}

#[test]
fn apply_to_every_profile_continues_after_a_failure() {
    // Regression: aborting on the first failure left every later profile on
    // NetworkManager's `autoconnect=yes` default, so all of them activated
    // at the next boot.
    let profiles = vec![
        profile("wg-us", "uuid-1"),
        profile("wg-eu", "uuid-2"),
        profile("wg-jp", "uuid-3"),
    ];
    let batches = autoconnect_arg_batches(&profiles, false);
    let attempted = RefCell::new(Vec::new());

    let result = apply_to_every_profile(&profiles, batches, |args: &[String]| {
        let uuid = args[2].clone();
        attempted.borrow_mut().push(uuid.clone());
        if uuid == "uuid-1" {
            return Err(AppError::CommandFailed("simulated".to_string()));
        }
        Ok(String::new())
    });

    assert_eq!(*attempted.borrow(), vec!["uuid-1", "uuid-2", "uuid-3"]);

    let Err(AppError::CommandFailed(message)) = result else {
        panic!("the failure must still be reported");
    };
    // Numerator and denominator differ here, so a swapped or off-by-one
    // count cannot pass.
    assert!(message.contains("1 of 3"), "got: {message}");
    assert!(message.contains("wg-us"), "got: {message}");
    assert!(
        !message.contains("wg-eu") && !message.contains("wg-jp"),
        "profiles that succeeded must not be listed: {message}"
    );
}

#[test]
fn apply_to_every_profile_reports_all_failures_with_profile_identity() {
    let profiles = vec![profile("wg-us", "uuid-1"), profile("wg-eu", "uuid-2")];
    let batches = autoconnect_arg_batches(&profiles, false);

    let result = apply_to_every_profile(&profiles, batches, |_: &[String]| {
        Err(AppError::CommandFailed("simulated".to_string()))
    });

    let Err(AppError::CommandFailed(message)) = result else {
        panic!("expected an aggregated CommandFailed error");
    };
    assert!(message.contains("2 of 2 profiles"), "got: {message}");
    assert!(message.contains("wg-us (uuid-1)"), "got: {message}");
    assert!(message.contains("wg-eu (uuid-2)"), "got: {message}");
}

#[test]
fn apply_to_every_profile_is_ok_when_every_batch_succeeds() {
    let profiles = vec![profile("wg-us", "uuid-1"), profile("wg-eu", "uuid-2")];
    let batches = autoconnect_arg_batches(&profiles, false);
    let calls = Cell::new(0);

    let result = apply_to_every_profile(&profiles, batches, |_: &[String]| {
        calls.set(calls.get() + 1);
        Ok(String::new())
    });

    assert_eq!(calls.get(), 2);
    assert!(result.is_ok());
}

#[test]
fn parses_peer_settings_from_nmcli_output() {
    let output = "connection.interface-name:            wg0\n\
                  wireguard.peers:                     PUBKEY= endpoint=1.2.3.4:51820 allowed-ips=0.0.0.0/0;::/0 persistent-keepalive=25\n\
                  ipv4.method:                         manual\n";

    let settings = parse_peer_settings(output);

    assert_eq!(settings.interface_name.as_deref(), Some("wg0"));
    assert_eq!(settings.endpoint.as_deref(), Some("1.2.3.4:51820"));
    assert_eq!(settings.allowed_ips.as_deref(), Some("0.0.0.0/0, ::/0"));
    assert_eq!(settings.keepalive.as_deref(), Some("25"));
    // The bare leading token is the peer key; a `k=v` token is not.
    assert_eq!(settings.public_key, None);
}

#[test]
fn parses_bare_public_key_and_treats_dashes_as_unset() {
    let settings = parse_peer_settings(
        "connection.interface-name:  --\nwireguard.peers:  abc123 endpoint=host:51820\n",
    );

    assert_eq!(settings.interface_name, None, "`--` means unset");
    assert_eq!(settings.public_key.as_deref(), Some("abc123"));
    assert_eq!(settings.endpoint.as_deref(), Some("host:51820"));
}

#[test]
fn diagnostics_fall_back_to_placeholders_for_unset_fields() {
    let diagnostics =
        settings_to_diagnostics(&PeerSettings::default(), "wg0".to_string(), false);

    assert_eq!(diagnostics.public_key, "N/A");
    assert_eq!(diagnostics.endpoint, "N/A");
    assert_eq!(diagnostics.keepalive, "N/A");
    // An unset allowed-ips means a full tunnel, not an unknown value.
    assert_eq!(diagnostics.allowed_ips, "0.0.0.0/0, ::/0");
    assert_eq!(diagnostics.latest_handshake, "Inactive (Standby)");
}

#[test]
fn wg_dump_overlays_live_link_statistics() {
    let mut diagnostics =
        settings_to_diagnostics(&PeerSettings::default(), "wg0".to_string(), true);
    let now = std::time::SystemTime::now()
        .duration_since(std::time::UNIX_EPOCH)
        .expect("time should move forward")
        .as_secs();
    let dump = format!(
        "privkey\tifacekey\t51820\toff\n\
         peerkey\tpsk\t9.9.9.9:51820\t10.0.0.0/8\t{now}\t2048\t1024\t25\n"
    );

    overlay_wg_dump(&mut diagnostics, &dump, now);

    assert_eq!(diagnostics.public_key, "ifacekey");
    assert_eq!(diagnostics.endpoint, "9.9.9.9:51820");
    assert_eq!(diagnostics.allowed_ips, "10.0.0.0/8");
    assert_eq!(diagnostics.transfer_rx, "2.00 KiB");
    assert_eq!(diagnostics.transfer_tx, "1.00 KiB");
    assert_eq!(diagnostics.keepalive, "25");
    assert!(diagnostics.latest_handshake.ends_with("ago"));
}

#[test]
fn wg_dump_placeholders_leave_profile_values_untouched() {
    let settings = PeerSettings {
        endpoint: Some("profile.example:51820".to_string()),
        keepalive: Some("15".to_string()),
        ..PeerSettings::default()
    };
    let mut diagnostics = settings_to_diagnostics(&settings, "wg0".to_string(), true);

    // `(none)`, empty columns, a zero handshake and `off` all mean "no live
    // value", so the profile-derived ones must survive.
    overlay_wg_dump(
        &mut diagnostics,
        "privkey\t\t51820\toff\npeerkey\t\t(none)\t\t0\t0\t0\toff\n",
        1_700_000_000,
    );

    assert_eq!(diagnostics.endpoint, "profile.example:51820");
    assert_eq!(diagnostics.keepalive, "15");
    assert_eq!(diagnostics.latest_handshake, "Active");
    assert_eq!(diagnostics.transfer_rx, "0 B");
}

#[test]
fn an_interface_without_a_key_leaves_the_one_of_the_profile() {
    let mut diagnostics =
        settings_to_diagnostics(&PeerSettings::default(), "wg0".to_string(), true);
    overlay_wg_dump(&mut diagnostics, "(none)\t(none)\t51820\toff\n", 1_700_000_000);
    assert_eq!(diagnostics.public_key, "N/A");

    let settings = PeerSettings {
        public_key: Some("profilekey".to_string()),
        ..PeerSettings::default()
    };
    let mut diagnostics = settings_to_diagnostics(&settings, "wg0".to_string(), true);
    overlay_wg_dump(&mut diagnostics, "privkey\t(none)\t51820\toff\n", 1_700_000_000);
    assert_eq!(diagnostics.public_key, "profilekey");
}

#[test]
fn wg_dump_ignores_truncated_output() {
    let mut diagnostics =
        settings_to_diagnostics(&PeerSettings::default(), "wg0".to_string(), true);

    overlay_wg_dump(&mut diagnostics, "privkey\tifacekey\t51820\toff\n", 1_700_000_000);

    assert_eq!(diagnostics.public_key, "ifacekey");
    assert_eq!(diagnostics.transfer_rx, "0 B", "no peer line, no counters");
}

#[test]
fn test_format_bytes() {
    assert_eq!(format_bytes(0), "0 B");
    assert_eq!(format_bytes(512), "512 B");
    assert_eq!(format_bytes(1024), "1.00 KiB");
    assert_eq!(format_bytes(1536), "1.50 KiB");
    assert_eq!(format_bytes(1024 * 1024), "1.00 MiB");
    assert_eq!(format_bytes(1024 * 1024 * 1024), "1.00 GiB");
}

#[test]
fn test_format_handshake_time() {
    let now = std::time::SystemTime::now()
        .duration_since(std::time::UNIX_EPOCH)
        .unwrap_or_default()
        .as_secs();
    assert_eq!(format_handshake_time(now, now), "0s ago");
    assert_eq!(format_handshake_time(now - 10, now), "10s ago");
    assert_eq!(format_handshake_time(now - 65, now), "1m 5s ago");
    assert_eq!(format_handshake_time(now - 3665, now), "1h 1m ago");
    assert_eq!(format_handshake_time(now + 10, now), "Just now");
}

#[test]
fn test_extract_interface_comments() {
    let content = "[Interface]\n\
                   # Bouncing: Enabled\n\
                   ; NetShield: Block malware\n\
                   Address = 10.2.0.2/32\n\
                   \n\
                   [Peer]\n\
                   PublicKey = abc\n";

    let comments = extract_interface_comments(content);
    assert_eq!(comments, "Bouncing: Enabled\nNetShield: Block malware");
}
