use neutron::app::eligibility::set_profile_eligible;
use neutron::app::profile_list::{build_rows, format_cli_row, ProfileListRow};
use neutron::app::refresh_sync::should_refresh_from_nm_monitor_line;
use neutron::collections::{before, IdSet, NoteMap};
use neutron::nm::{ProfileState, WireguardProfile};

fn ids(list: &[&str]) -> IdSet {
    let mut set = IdSet::new();
    for id in list {
        set.insert(id.to_string());
    }
    set
}

fn profile(name: &str, uuid: &str, state: ProfileState) -> WireguardProfile {
    WireguardProfile {
        name: name.to_string(),
        uuid: uuid.to_string(),
        state,
    }
}

#[test]
fn excludes_profile_when_disabling() {
    let mut excluded = ids(&["uuid-1"]);

    let changed = set_profile_eligible(&mut excluded, "uuid-2", false);

    assert!(changed);
    assert_eq!(excluded.to_vec(), ids(&["uuid-1", "uuid-2"]).to_vec());
}

#[test]
fn does_not_duplicate_exclusion_when_disabling_again() {
    let mut excluded = ids(&["uuid-1"]);

    let changed = set_profile_eligible(&mut excluded, "uuid-1", false);

    assert!(!changed);
    assert_eq!(excluded.to_vec(), ids(&["uuid-1"]).to_vec());
}

#[test]
fn removes_exclusion_when_enabling() {
    let mut excluded = ids(&["uuid-1", "uuid-2"]);

    let changed = set_profile_eligible(&mut excluded, "uuid-1", true);

    assert!(changed);
    assert_eq!(excluded.to_vec(), ids(&["uuid-2"]).to_vec());
}

#[test]
fn no_change_when_enabling_already_eligible_profile() {
    let mut excluded = ids(&["uuid-2"]);

    let changed = set_profile_eligible(&mut excluded, "uuid-1", true);

    assert!(!changed);
    assert_eq!(excluded.to_vec(), ids(&["uuid-2"]).to_vec());
}

#[test]
fn eligibility_can_be_taken_and_given_back() {
    let mut excluded = ids(&["b", "d"]);
    assert!(set_profile_eligible(&mut excluded, "c", false));
    assert_eq!(excluded.to_vec(), vec!["b", "c", "d"]);
    assert!(set_profile_eligible(&mut excluded, "c", true));
    assert_eq!(excluded.to_vec(), vec!["b", "d"]);
}

#[test]
fn builds_rows_with_eligible_and_state_labels() {
    let excluded = ids(&["uuid-us"]);

    let rows = build_rows(
        &[
            profile("wg-eu", "uuid-eu", ProfileState::Inactive),
            profile("wg-us", "uuid-us", ProfileState::Active),
        ],
        &excluded,
    );

    assert_eq!(rows.len(), 2);
    assert_eq!(rows[0].name, "wg-eu");
    assert_eq!(rows[0].state_label, "inactive");
    assert!(rows[0].eligible);
    assert_eq!(rows[1].name, "wg-us");
    assert_eq!(rows[1].state_label, "active");
    assert!(!rows[1].eligible);
}

#[test]
fn treats_empty_exclusion_set_as_all_eligible() {
    let rows = build_rows(
        &[
            profile("wg-eu", "uuid-eu", ProfileState::Inactive),
            profile("wg-us", "uuid-us", ProfileState::Active),
        ],
        &IdSet::new(),
    );

    assert!(rows.iter().all(|row| row.eligible));
}

#[test]
fn sorts_rows_by_name() {
    let rows = build_rows(
        &[
            profile("wg-z", "uuid-z", ProfileState::Inactive),
            profile("wg-a", "uuid-a", ProfileState::Inactive),
        ],
        &IdSet::new(),
    );

    assert_eq!(rows[0].name, "wg-a");
    assert_eq!(rows[1].name, "wg-z");
}

#[test]
fn rows_of_one_name_keep_their_order() {
    let rows = build_rows(
        &[
            profile("same", "first", ProfileState::Inactive),
            profile("a", "other", ProfileState::Inactive),
            profile("same", "second", ProfileState::Active),
        ],
        &IdSet::new(),
    );
    let order: Vec<&str> = rows.iter().map(|row| row.uuid.as_str()).collect();
    assert_eq!(order, vec!["other", "first", "second"]);
    assert!(rows[2].is_active);
}

#[test]
fn formats_cli_row_output() {
    let row = ProfileListRow {
        name: "wg-us".to_string(),
        uuid: "uuid-1".to_string(),
        is_active: true,
        state_label: "active",
        eligible: true,
    };

    let line = format_cli_row(&row);

    assert_eq!(line, "wg-us [active] eligible");
}

#[test]
fn a_row_that_is_not_eligible_says_so() {
    let rows = build_rows(&[profile("wg", "u", ProfileState::Inactive)], &ids(&["u"]));
    assert_eq!(format_cli_row(&rows[0]), "wg [inactive] not-eligible");
}

#[test]
fn refreshes_for_connection_event_line() {
    assert!(should_refresh_from_nm_monitor_line(
        "connection profile added"
    ));
}

#[test]
fn refreshes_for_device_event_line() {
    assert!(should_refresh_from_nm_monitor_line(
        "device wlan0 state changed"
    ));
}

#[test]
fn ignores_unrelated_lines() {
    assert!(!should_refresh_from_nm_monitor_line("dns manager started"));
}

#[test]
fn ignores_empty_line() {
    assert!(!should_refresh_from_nm_monitor_line("   "));
}

#[test]
fn monitor_lines_are_read_in_any_case() {
    assert!(should_refresh_from_nm_monitor_line("  WireGuard is Up "));
}

#[test]
fn identifiers_are_kept_in_order_of_their_characters() {
    assert!(before("Z", "a"));
    assert!(before("a", "aa"));
    assert!(!before("a", "a"));
    assert_eq!(ids(&["b", "a", "b", "B"]).to_vec(), vec!["B", "a", "b"]);
    let mut set = ids(&["x"]);
    assert_eq!(set.len(), 1);
    assert!(!set.is_empty());
    assert!(set.contains("x"));
    assert!(!set.insert("x".to_string()));
    assert!(set.remove("x"));
    assert!(!set.remove("x"));
    assert!(set.is_empty());
}

#[test]
fn notes_are_kept_by_profile() {
    let mut notes = NoteMap::new();
    assert!(notes.is_empty());
    notes.insert("b".to_string(), "first".to_string());
    notes.insert("a".to_string(), "other".to_string());
    notes.insert("b".to_string(), "second".to_string());
    assert_eq!(notes.len(), 2);
    assert_eq!(notes.get("b"), Some("second"));
    assert_eq!(notes.get("c"), None);
    assert_eq!(notes.keys(), vec!["a", "b"]);
    assert!(notes.same_as(&notes.clone()));
    let copy = notes.clone();
    assert!(notes.remove("a"));
    assert!(!notes.remove("a"));
    assert!(!notes.same_as(&copy));
}
