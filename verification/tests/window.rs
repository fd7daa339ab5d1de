use neutron::app::eligibility::set_profile_eligible;
use neutron::app::profile_list::{build_rows, ProfileListRow};
use neutron::config::{AppConfig, SplitTunnelMode};
use neutron::error::{AppError, AppResult};
use neutron::gui::desktop::{
    desktop_entry, exec_command, icon_path, logo_paths, other_entry, repair_entry,
};
use neutron::gui::indicator::{
    argb32_from_premultiplied_bgra, background_message, item_call, item_property, menu_action,
    menu_call, menu_entry, menu_group, menu_layout, status_icon, tooltip, IndicatorState,
    ItemCall, MenuAction, MenuCall, MenuEntry, PropertyValue, ICON_CONNECTED, ICON_DISCONNECTED,
};
use neutron::gui::window::{
    add_typed_cidr, add_typed_domain, connection_label, eligibility_message, eligibility_subtitle,
    failure, import_files, import_message, import_sources, mode_at, mode_place, no_local_path, port_copied,
    port_label, profile_failure, protection_notice, remembered_size, remembered_text, remove_item,
    removal_question,
    size_to_remember, split_message, window_size, ConnectionState,
};
use neutron::ip::IpAddr;
use neutron::nm::health::TunnelHealth;
use neutron::nm::{CliNmClient, ProfileState, WireguardProfile};
use neutron::record::Recorder;

/// The rows of the window, from the client and the settings.
fn load_rows<N: Fn(&[String]) -> AppResult<String>>(
    nmcli: N,
    config: &AppConfig,
) -> AppResult<Vec<ProfileListRow>> {
    let mut client = CliNmClient::new(
        nmcli,
        || None,
        |_: &Vec<String>| Vec::<IpAddr>::new(),
        |_: &str| false,
        |_: &str| TunnelHealth::Handshaken,
        |_: &AppConfig| Ok(()),
    );
    let profiles = client.list_wireguard_profiles()?;
    Ok(build_rows(&profiles, &config.excluded_profile_ids))
}

#[test]
fn load_rows_fails_when_nm_fails() {
    let nmcli = |_: &[String]| -> AppResult<String> {
        Err(AppError::CommandFailed("nmcli".to_string()))
    };

    let result = load_rows(nmcli, &AppConfig::default());

    assert!(result.is_err());
}

#[test]
fn load_rows_maps_profiles() {
    let nmcli = |args: &[String]| -> AppResult<String> {
        if args.last().map(String::as_str) == Some("--active") {
            return Ok(String::new());
        }
        Ok("wg-us:uuid-1:wireguard".to_string())
    };

    let rows = load_rows(nmcli, &AppConfig::default()).expect("rows");

    assert_eq!(rows.len(), 1);
    assert_eq!(rows[0].uuid, "uuid-1");
    assert!(!rows[0].is_active);
}

#[test]
fn set_eligibility_excludes_and_restores_profile() {
    let mut config = AppConfig::default();

    let changed = set_profile_eligible(&mut config.excluded_profile_ids, "uuid-1", false);
    assert!(changed);
    assert_eq!(config.excluded_profile_ids.to_vec(), vec!["uuid-1"]);

    let changed = set_profile_eligible(&mut config.excluded_profile_ids, "uuid-1", true);
    assert!(changed);
    assert!(config.excluded_profile_ids.is_empty());
}

#[test]
fn icon_theme_path_points_at_the_directory_the_icons_are_installed_into() {
    let path = icon_path("scalable", ICON_CONNECTED, "svg");

    assert!(path.starts_with("icons/hicolor/"), "{path}");
    assert_eq!(
        path,
        "icons/hicolor/scalable/apps/neutron-vpn-connected.svg"
    );
}

#[test]
fn converts_bgra_to_network_order_argb() {
    let bgra = [0x10, 0x20, 0x30, 0xff];

    assert_eq!(
        argb32_from_premultiplied_bgra(&bgra),
        vec![0xff, 0x30, 0x20, 0x10]
    );
}

#[test]
fn un_premultiplies_partially_transparent_pixels() {
    let bgra = [0x80, 0x80, 0x80, 0x80];

    assert_eq!(
        argb32_from_premultiplied_bgra(&bgra),
        vec![0x80, 0xff, 0xff, 0xff]
    );
}

#[test]
fn leaves_fully_transparent_pixels_black() {
    let bgra = [0x00, 0x00, 0x00, 0x00];

    assert_eq!(argb32_from_premultiplied_bgra(&bgra), vec![0, 0, 0, 0]);
}

#[test]
fn emits_four_bytes_for_every_pixel() {
    let bgra = [0u8; 4 * 7];

    assert_eq!(argb32_from_premultiplied_bgra(&bgra).len(), 4 * 7);
}

#[test]
fn the_indicator_tells_the_state() {
    assert_eq!(status_icon(true), ICON_CONNECTED);
    assert_eq!(status_icon(false), ICON_DISCONNECTED);
    assert_eq!(tooltip(false, Some("wg"), Some(1)), "Disconnected");
    assert_eq!(
        tooltip(true, Some("wg"), Some(4242)),
        "Connected: wg\nForwarded port: 4242"
    );
    assert_eq!(
        background_message(true, None, Some(1)),
        "Connected: Connected (Port: 1)"
    );
    let mut state = IndicatorState::new();
    state.update_status(true, Some("wg"), None);
    assert!(state.connected);
    assert_eq!(state.active_profile.as_deref(), Some("wg"));
    assert_eq!(state.menu_revision, 2);
    state.menu_revision = u32::MAX;
    state.update_status(false, None, None);
    assert_eq!(state.menu_revision, 0);
}

#[test]
fn the_menu_has_an_entry_for_a_port_only_while_one_is_known() {
    let ids = |port| -> Vec<i32> {
        menu_layout(true, Some("wg"), port).iter().map(|(id, _)| *id).collect()
    };
    assert_eq!(ids(None), vec![1, 2, 3, 4]);
    assert_eq!(ids(Some(7)), vec![1, 5, 2, 3, 4]);
    assert!(matches!(
        menu_entry(2, true, Some("wg"), None),
        Some(MenuEntry::Item(label)) if label == "Disconnect (wg)"
    ));
    assert!(matches!(menu_entry(0, false, None, None), Some(MenuEntry::Root)));
    assert!(matches!(menu_entry(3, false, None, None), Some(MenuEntry::Separator)));
    assert!(menu_entry(9, false, None, None).is_none());
    assert_eq!(menu_group(&[4, 9], false, None, None).len(), 1);
    assert_eq!(menu_group(&[], false, None, None).len(), 5);
}

#[test]
fn menu_items_act() {
    assert_eq!(menu_action(1, false, None), MenuAction::ShowWindow);
    assert_eq!(menu_action(2, true, None), MenuAction::Disconnect);
    assert_eq!(menu_action(2, false, None), MenuAction::ConnectRandom);
    assert_eq!(menu_action(4, false, None), MenuAction::Quit);
    assert_eq!(menu_action(5, true, Some(7)), MenuAction::CopyPort(7));
    assert_eq!(menu_action(5, true, None), MenuAction::Nothing);
    assert_eq!(item_call("Activate"), ItemCall::ShowWindow);
    assert_eq!(item_call("Scroll"), ItemCall::Nothing);
    assert_eq!(item_call("Other"), ItemCall::Unknown);
    assert_eq!(menu_call("GetLayout"), MenuCall::Layout);
    assert_eq!(menu_call("Event"), MenuCall::Event);
    assert_eq!(menu_call("Other"), MenuCall::Unknown);
    assert!(matches!(
        item_property("Id", false, None, None),
        PropertyValue::Text("neutron-vpn")
    ));
    assert!(matches!(
        item_property("ToolTip", false, None, None),
        PropertyValue::ToolTip { title: "Neutron VPN", body } if body == "Disconnected"
    ));
    assert!(matches!(
        item_property("IconName", true, None, None),
        PropertyValue::Text("")
    ));
}

fn row(uuid: &str, active: bool) -> ProfileListRow {
    ProfileListRow {
        name: format!("name of {uuid}"),
        uuid: uuid.to_string(),
        is_active: active,
        state_label: if active { "active" } else { "inactive" },
        eligible: true,
    }
}

#[test]
fn a_port_is_forgotten_with_its_tunnel() {
    let mut state = ConnectionState::new();
    let first = state.rows_loaded(&[row("a", true), row("b", false)], true);
    assert_eq!(first.message, Some("Profiles loaded from NetworkManager."));
    assert_eq!(first.ask_port.as_deref(), Some("a"));
    assert!(!first.dropped);
    state.port_told(Some(4242));

    // The same tunnel keeps its port.
    state.rows_loaded(&[row("a", true), row("b", false)], false);
    assert_eq!(state.active_port, Some(4242));

    // Another tunnel has another port.
    state.rows_loaded(&[row("a", false), row("b", true)], false);
    assert_eq!(state.active_port, None);
    assert_eq!(state.active_profile.as_deref(), Some("name of b"));

    let last = state.rows_loaded(&[], false);
    assert!(last.dropped);
    assert_eq!(
        last.message,
        Some("No WireGuard profiles found. Import a configuration to add one.")
    );
    assert_eq!(state.active_profile, None);
}

#[test]
fn the_window_tells_what_protects_traffic() {
    assert_eq!(
        protection_notice(true, true).map(|n| n.0),
        Some("Lockdown is blocking traffic")
    );
    assert_eq!(
        protection_notice(false, true).map(|n| n.0),
        Some("VPN disconnected \u{2014} traffic is exposed")
    );
    assert_eq!(protection_notice(false, false), None);
    assert!(connection_label(true).contains(">Connected<"));
    assert!(connection_label(false).contains(">Disconnected<"));
    assert_eq!(
        port_label(Some(1)).as_deref(),
        Some("Forwarded port: <b><tt>1</tt></b>")
    );
    assert_eq!(port_label(None), None);
    assert_eq!(port_copied(80), "Copied port 80 to clipboard.");
    assert_eq!(failure("Refresh failed", "no"), "Refresh failed: no");
    assert_eq!(profile_failure("Could not delete", "wg", "no"), "Could not delete 'wg': no");
    assert!(removal_question("wg").contains("'wg'"));
}

#[test]
fn eligibility_is_summed_up() {
    assert_eq!(
        eligibility_subtitle(false, &[true]),
        "Disabled (Auto-Connect at Login is turned off)"
    );
    assert_eq!(eligibility_subtitle(true, &[]), "No profiles to choose from");
    let some = eligibility_subtitle(true, &[true, false, true]);
    assert!(some.contains('2') && some.contains('3'), "{some}");
    assert_eq!(
        eligibility_message("wg", true, None),
        "Enabled random login selection for 'wg'."
    );
    assert_eq!(
        eligibility_message("wg", false, Some("no")),
        "Failed to update eligibility for 'wg': no"
    );
}

#[test]
fn split_tunneling_is_edited_in_place() {
    for mode in [
        SplitTunnelMode::Disabled,
        SplitTunnelMode::Include,
        SplitTunnelMode::Exclude,
    ] {
        assert_eq!(mode_at(mode_place(mode)), mode);
    }
    assert_eq!(mode_at(9), SplitTunnelMode::Disabled);
    let mut list = Vec::new();
    assert!(add_typed_cidr(&mut list, "10.1.1.1/8"));
    assert!(add_typed_cidr(&mut list, "10.0.0.0/8"));
    assert!(!add_typed_cidr(&mut list, "nope"));
    assert_eq!(list, vec!["10.0.0.0/8"]);
    remove_item(&mut list, "10.0.0.0/8");
    assert!(list.is_empty());
    assert!(add_typed_domain(&mut list, " Example.COM "));
    assert!(!add_typed_domain(&mut list, " "));
    assert_eq!(list, vec!["example.com"]);
    assert_eq!(
        split_message(SplitTunnelMode::Include),
        "Updated global split tunneling (include)."
    );
}

#[test]
fn imports_are_reported() {
    let sources = import_sources();
    assert_eq!(sources.len(), 3);
    assert!(sources[2].guide.is_none());
    assert_eq!(no_local_path(None), "selected file: file has no local path");
    let none: Vec<String> = Vec::new();
    let bad = vec!["a: no".to_string()];
    assert_eq!(import_message(&none, &None), None);
    assert_eq!(
        import_message(&bad, &None).as_deref(),
        Some("Import failed:\na: no")
    );
    assert_eq!(
        import_message(&bad, &Some(Ok(vec!["b: no".to_string()]))).as_deref(),
        Some("Some imports failed:\na: no\nb: no")
    );
    assert_eq!(import_message(&none, &Some(Ok(Vec::new()))), None);
    assert_eq!(
        import_message(&none, &Some(Err("all".to_string()))).as_deref(),
        Some("Import failed: all")
    );
}

#[test]
fn the_window_remembers_a_size() {
    assert_eq!(window_size(None, None), (720, 420));
    assert_eq!(window_size(Some(900), None), (900, 420));
    let _ = size_to_remember(900, 600);
}

#[test]
fn the_desktop_has_one_entry() {
    assert_eq!(exec_command(Some("/a/N.AppImage"), Some("/b/n")), "\"/a/N.AppImage\" gui");
    assert_eq!(exec_command(None, Some("/b/n")), "\"/b/n\" gui");
    assert_eq!(exec_command(None, None), "neutron-vpn gui");
    let entry = desktop_entry("neutron-vpn gui");
    assert!(entry.starts_with("[Desktop Entry]\n"));
    assert!(entry.contains("\nExec=neutron-vpn gui\n"));
    assert!(other_entry("appimagekit-neutron.desktop"));
    assert!(!other_entry("io.gitlab.neutron_vpn.neutron.desktop"));
    assert!(!other_entry("neutron.txt"));
    assert_eq!(repair_entry("[Desktop Entry]\nIcon=other\n"), None);
    let repaired = repair_entry(
        "[Desktop Entry]\nIcon=other\nStartupWMClass=io.gitlab.neutron_vpn.neutron\n",
    )
    .expect("an entry of ours");
    assert!(repaired.contains("Icon=io.gitlab.neutron_vpn.neutron"));
    assert_eq!(repair_entry(&repaired), None);
    assert_eq!(logo_paths(None).len() + 2, logo_paths(Some("/app")).len());
}

#[test]
fn a_profile_knows_whether_it_is_up() {
    let mut profile = WireguardProfile {
        name: "wg".to_string(),
        uuid: "u".to_string(),
        state: ProfileState::Active,
    };
    assert!(profile.is_active());
    profile.state = ProfileState::Inactive;
    assert!(!profile.is_active());
}

#[test]
fn every_chosen_file_is_imported_once() {
    let asked = std::cell::RefCell::new(Vec::new());
    let mut import = Recorder::new(|path: &str| {
        asked.borrow_mut().push(path.to_string());
        if path.contains("bad") {
            return Err(AppError::CommandFailed("invalid".to_string()));
        }
        Ok(())
    });
    let paths: Vec<String> = ["/a/bad.conf", "/a/good.conf", "/b/bad.conf"]
        .iter()
        .map(|path| path.to_string())
        .collect();
    assert_eq!(
        import_files(&paths, &mut import),
        vec!["/a/bad.conf: command failed: invalid", "/b/bad.conf: command failed: invalid"]
    );
    assert_eq!(*asked.borrow(), paths);
    assert!(import_files(&[], &mut import).is_empty());
}

#[test]
fn a_remembered_size_reads_back() {
    assert_eq!(remembered_text(800, 600).as_deref(), Some("800 600\n"));
    assert_eq!(remembered_size("800 600\n"), Some((800, 600)));
    assert_eq!(remembered_text(0, 600), None);
    assert_eq!(remembered_size("800"), None);
    assert_eq!(remembered_size("800 wide"), None);
    assert_eq!(remembered_size("99999999999 1"), None);
}
