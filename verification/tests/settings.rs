use neutron::collections::NoteMap;
use neutron::config::{
    choose_config, config_candidates, default_config_candidates, expand_home, forget_profile,
    join_webui_url, loaded, resolve_profiles_dir, sidecar_needs_writing, split_webui_url,
    temporary_path, AppConfig, GeneralConfig, PortForwardConfig, PortForwardMode,
    QBittorrentConfig, SplitTunnelMode,
};
use neutron::error::{AppError, Policy};

#[test]
fn resolve_profiles_dir_expands_tilde() {
    let config = AppConfig {
        general: GeneralConfig {
            profiles_dir: "~/.config/neutron/profiles".to_string(),
            ..Default::default()
        },
        ..Default::default()
    };

    let resolved = String::from_utf8_lossy(&resolve_profiles_dir(&config)).into_owned();
    assert!(!resolved.starts_with('~'));
    assert!(resolved.ends_with("profiles"));

    let bare_config = AppConfig {
        general: GeneralConfig {
            profiles_dir: "~".to_string(),
            ..Default::default()
        },
        ..Default::default()
    };
    let bare_resolved = resolve_profiles_dir(&bare_config);
    assert!(!bare_resolved.starts_with(b"~"));
    if let Some(home) = dirs::home_dir() {
        assert_eq!(bare_resolved, home.as_os_str().as_encoded_bytes());
    }
}

#[test]
fn a_home_is_put_in_place_of_a_leading_tilde_only() {
    let home = Some(&b"/home/me"[..]);
    assert_eq!(expand_home("~/drop", home), b"/home/me/drop");
    assert_eq!(expand_home("~", home), b"/home/me");
    assert_eq!(expand_home("~other/drop", home), b"~other/drop");
    assert_eq!(expand_home("/srv/~/drop", home), b"/srv/~/drop");
    assert_eq!(expand_home("~/drop", None), b"~/drop");
    // A home that is not text stays what it is.
    assert_eq!(expand_home("~/drop", Some(&b"/home/\xff"[..])), b"/home/\xff/drop");
}

#[test]
fn forget_profile_removes_all_metadata_for_uuid() {
    let mut config = AppConfig::default();
    config
        .profile_custom_info
        .insert("uuid-1".to_string(), "# notes".to_string());
    config.excluded_profile_ids.insert("uuid-1".to_string());
    config.last_random_profile_id = Some("uuid-1".to_string());

    let changed = forget_profile(&mut config, "uuid-1");

    assert!(changed);
    assert!(config.profile_custom_info.is_empty());
    assert!(config.excluded_profile_ids.is_empty());
    assert_eq!(config.last_random_profile_id, None);
}

#[test]
fn forgetting_one_profile_keeps_the_others() {
    let mut config = AppConfig::default();
    config.favorite_profile_ids.insert("a".to_string());
    config.favorite_profile_ids.insert("b".to_string());
    config.last_random_profile_id = Some("b".to_string());
    assert!(forget_profile(&mut config, "a"));
    assert_eq!(config.favorite_profile_ids.to_vec(), vec!["b"]);
    assert_eq!(config.last_random_profile_id.as_deref(), Some("b"));
    assert!(!forget_profile(&mut config, "a"));
}

#[test]
fn split_tunnel_mode_parsing_and_display() {
    assert_eq!(
        SplitTunnelMode::parse("include").unwrap(),
        SplitTunnelMode::Include
    );
    assert_eq!(
        SplitTunnelMode::parse("exclude").unwrap(),
        SplitTunnelMode::Exclude
    );
    assert_eq!(
        SplitTunnelMode::parse("disabled").unwrap(),
        SplitTunnelMode::Disabled
    );
    assert_eq!(
        SplitTunnelMode::parse("off").unwrap(),
        SplitTunnelMode::Disabled
    );
    assert_eq!(
        SplitTunnelMode::parse("bypass").unwrap(),
        SplitTunnelMode::Exclude
    );
    assert_eq!(
        SplitTunnelMode::parse("only").unwrap(),
        SplitTunnelMode::Include
    );
    assert!(SplitTunnelMode::parse("invalid").is_err());

    assert_eq!(SplitTunnelMode::Include.to_string(), "include");
    assert_eq!(SplitTunnelMode::Exclude.to_string(), "exclude");
    assert_eq!(SplitTunnelMode::Disabled.to_string(), "disabled");
}

#[test]
fn port_forward_mode_parsing_and_display() {
    assert_eq!(
        PortForwardMode::parse("forward").unwrap(),
        PortForwardMode::Forward
    );
    assert_eq!(
        PortForwardMode::parse("forward-and-sync").unwrap(),
        PortForwardMode::ForwardAndSync
    );
    assert_eq!(
        PortForwardMode::parse("disabled").unwrap(),
        PortForwardMode::Disabled
    );
    assert_eq!(
        PortForwardMode::parse("off").unwrap(),
        PortForwardMode::Disabled
    );
    assert_eq!(
        PortForwardMode::parse("auto-sync").unwrap(),
        PortForwardMode::ForwardAndSync
    );
    assert!(PortForwardMode::parse("invalid").is_err());

    assert_eq!(PortForwardMode::Forward.to_string(), "forward");
    assert_eq!(
        PortForwardMode::ForwardAndSync.to_string(),
        "forward-and-sync"
    );
    assert_eq!(PortForwardMode::Disabled.to_string(), "disabled");

    assert!(PortForwardMode::Forward.is_enabled());
    assert!(PortForwardMode::ForwardAndSync.is_enabled());
    assert!(!PortForwardMode::Disabled.is_enabled());
    assert!(PortForwardMode::ForwardAndSync.syncs_to_qbittorrent());
    assert!(!PortForwardMode::Forward.syncs_to_qbittorrent());
    assert!(!PortForwardMode::Disabled.syncs_to_qbittorrent());
}

#[test]
fn modes_are_read_in_any_case_and_with_space_around() {
    assert_eq!(
        SplitTunnelMode::parse("  InCLUDE\n").unwrap(),
        SplitTunnelMode::Include
    );
    assert_eq!(
        PortForwardMode::parse(" FORWARD ").unwrap(),
        PortForwardMode::Forward
    );
    // The modes read back from their names.
    for mode in [
        SplitTunnelMode::Disabled,
        SplitTunnelMode::Include,
        SplitTunnelMode::Exclude,
    ] {
        assert_eq!(SplitTunnelMode::parse(mode.as_str()).unwrap(), mode);
    }
    for mode in [
        PortForwardMode::Disabled,
        PortForwardMode::Forward,
        PortForwardMode::ForwardAndSync,
    ] {
        assert_eq!(PortForwardMode::parse(mode.as_str()).unwrap(), mode);
    }
}

#[test]
fn legacy_enabled_flags_migrate_to_mode() {
    let config = |mode: Option<PortForwardMode>, forward: bool, sync: bool| {
        let file = AppConfig {
            port_forwarding: PortForwardConfig::from_file(mode, forward),
            qbittorrent: QBittorrentConfig {
                legacy_enabled: sync,
                ..Default::default()
            },
            ..AppConfig::default()
        };
        loaded(file, None).port_forwarding.mode
    };

    assert_eq!(config(None, true, true), PortForwardMode::ForwardAndSync);
    assert_eq!(config(None, true, false), PortForwardMode::Forward);
    assert_eq!(config(None, false, true), PortForwardMode::Disabled);
    assert_eq!(config(None, false, false), PortForwardMode::Disabled);

    // An explicit mode always wins over legacy flags.
    assert_eq!(
        config(Some(PortForwardMode::Forward), true, true),
        PortForwardMode::Forward
    );
    assert_eq!(
        config(Some(PortForwardMode::Disabled), true, true),
        PortForwardMode::Disabled
    );
}

#[test]
fn notes_come_from_the_sidecar_where_there_is_one() {
    let mut inline = NoteMap::new();
    inline.insert("uuid".to_string(), "inline".to_string());
    let file = AppConfig {
        profile_custom_info: inline.clone(),
        ..AppConfig::default()
    };
    assert_eq!(
        loaded(file.clone(), None).profile_custom_info.get("uuid"),
        Some("inline")
    );
    // An empty sidecar does not bring the inline notes back.
    assert!(loaded(file, Some(NoteMap::new())).profile_custom_info.is_empty());

    assert!(sidecar_needs_writing(&None, &inline));
    assert!(!sidecar_needs_writing(&None, &NoteMap::new()));
    assert!(!sidecar_needs_writing(&Some(inline.clone()), &inline));
    assert!(sidecar_needs_writing(&Some(inline), &NoteMap::new()));
}

#[test]
fn roundtrips_qbittorrent_config() {
    let config = AppConfig {
        port_forwarding: PortForwardConfig {
            mode: PortForwardMode::ForwardAndSync,
            mode_explicit: true,
            ..Default::default()
        },
        qbittorrent: QBittorrentConfig {
            url: "http://192.168.1.50:8080".to_string(),
            username: Some("admin".to_string()),
            password: Some("secret123".to_string()),
            bind_interface: true,
            ..Default::default()
        },
        ..AppConfig::default()
    };

    let loaded = loaded(config, None);

    assert_eq!(loaded.port_forwarding.mode, PortForwardMode::ForwardAndSync);
    assert_eq!(loaded.qbittorrent.url, "http://192.168.1.50:8080");
    assert_eq!(loaded.qbittorrent.username.as_deref(), Some("admin"));
    assert_eq!(loaded.qbittorrent.password.as_deref(), Some("secret123"));
    assert!(loaded.qbittorrent.bind_interface);
    let (host, port) = split_webui_url(&loaded.qbittorrent.url);
    assert_eq!((host.as_str(), port.as_str()), ("192.168.1.50", "8080"));
    assert_eq!(
        join_webui_url("http://127.0.0.1:8080/qbittorrent", "10.0.0.2", "9090"),
        "http://10.0.0.2:9090/qbittorrent"
    );
}

#[test]
fn a_host_and_port_that_were_put_in_read_back() {
    let url = join_webui_url("https://old:1/path", "box.local", "9091");
    assert_eq!(url, "https://box.local:9091/path");
    assert_eq!(
        split_webui_url(&url),
        ("box.local".to_string(), "9091".to_string())
    );
}

#[test]
fn a_host_and_port_can_be_put_in_again() {
    // Whatever was typed first, as long as it does not reach into the path.
    for (host, port) in [("box.local", "9091"), ("", "80"), ("a:b", "http")] {
        let first = join_webui_url("https://old:1/path?x#y", host, port);
        assert_eq!(
            join_webui_url(&first, "10.0.0.2", "8080"),
            join_webui_url("https://old:1/path?x#y", "10.0.0.2", "8080")
        );
    }
}

#[test]
fn a_web_ui_on_this_machine_binds_the_tunnel() {
    let binds = |url: &str, bind: bool| {
        QBittorrentConfig {
            url: url.to_string(),
            bind_interface: bind,
            ..Default::default()
        }
        .binds_tunnel_interface()
    };
    assert!(binds("http://127.0.0.1:8080", false));
    assert!(binds("http://LocalHost:8080", false));
    assert!(binds("http://[::1]:8080", false));
    assert!(!binds("http://192.168.1.50:8080", false));
    assert!(binds("http://192.168.1.50:8080", true));
}

#[test]
fn settings_are_looked_for_in_order() {
    let list = config_candidates(b"/home/me/.config");
    let shown: Vec<String> = list
        .iter()
        .map(|path| String::from_utf8_lossy(path).into_owned())
        .collect();
    assert_eq!(config_candidates(b"/\xff")[0], b"/\xff/neutron/config.toml");
    assert_eq!(
        shown,
        vec![
            "/home/me/.config/neutron/config.toml",
            "/home/me/.config/neutron-vpn/config.toml",
            "/home/me/.config/neutron/config.json",
            "/home/me/.config/neutron-vpn/config.json",
            "/home/me/.config/wireguard-manager/config.json",
        ]
    );
    assert_eq!(choose_config(&[false, false, true, true]), 2);
    assert_eq!(choose_config(&[false, false]), 0);
    assert_eq!(choose_config(&[]), 0);
    if let Some(base) = dirs::config_dir() {
        let own = default_config_candidates().unwrap();
        assert_eq!(
            own[0],
            base.join("neutron/config.toml").as_os_str().as_encoded_bytes()
        );
    }
}

#[test]
fn a_temporary_file_stands_beside_its_target() {
    assert_eq!(temporary_path("/c/config.toml", 42), "/c/config.toml.tmp.42");
}

#[test]
fn first_run_settings() {
    let config = AppConfig::default();
    assert_eq!(config.general.profiles_dir, "~/.config/neutron/profiles");
    assert!(config.general.auto_sync_profiles);
    assert!(!config.general.autoconnect_at_login);
    assert!(config.general.verify_tunnel_on_connect);
    assert_eq!(config.theme.preset, "nord");
    assert_eq!(config.qbittorrent.url, "http://127.0.0.1:8080");
    assert_eq!(config.port_forwarding.mode, PortForwardMode::Disabled);
    assert!(config.global_split_tunnel.is_empty());
}

#[test]
fn every_error_is_told() {
    let text = |t: &str| t.to_string();
    let told = vec![
        AppError::CommandFailed(text("x")).text(),
        AppError::Firewall(text("x")).text(),
        AppError::NmParseFailed(text("x")).text(),
        AppError::ProfileNotFound(text("x")).text(),
        AppError::AmbiguousProfileName(text("x")).text(),
        AppError::NoActiveProfile.text(),
        AppError::TunnelUnhealthy(text("x")).text(),
        AppError::NoEligibleProfile.text(),
        AppError::PortForward(text("x")).text(),
        AppError::QBittorrent(text("x")).text(),
        AppError::Config(text("x")).text(),
        AppError::FeatureUnavailable(text("x")).text(),
        AppError::Uninstall(text("x")).text(),
        AppError::Io(text("x")).text(),
        AppError::SerdeJson(text("x")).text(),
        AppError::TomlDe(text("x")).text(),
        AppError::TomlSer(text("x")).text(),
    ];
    for line in &told {
        assert!(!line.is_empty());
    }
    assert_eq!(told[0], "command failed: x");
    let nested = AppError::PolicyUpdate {
        policy: Policy::Lockdown,
        outcome: text("may be partial"),
        source: Box::new(AppError::Firewall(text("rejected"))),
    }
    .text();
    assert!(nested.contains("lockdown"), "{nested}");
    assert!(nested.contains("may be partial"), "{nested}");
    assert!(nested.contains("rejected"), "{nested}");
}

#[test]
fn notes_that_were_saved_are_read() {
    let mut notes = NoteMap::new();
    notes.insert("uuid-1".to_string(), "note".to_string());
    for stored in [None, Some(NoteMap::new()), Some(notes.clone())] {
        for saved in [NoteMap::new(), notes.clone()] {
            let sidecar = if sidecar_needs_writing(&stored, &saved) {
                Some(saved.clone())
            } else {
                stored.clone()
            };
            let read = loaded(AppConfig::default(), sidecar);
            assert_eq!(read.profile_custom_info.get("uuid-1"), saved.get("uuid-1"));
        }
    }
}
