//! The list of profiles.

use vstd::prelude::*;
use vstd::string::*;

use crate::collections::{text_before, IdSet};
use crate::nm::profiles::{profile_views, ProfileState, ProfileView, WireguardProfile};
use crate::order::{comes_before, is_stable_order, stable_order};

verus! {

/// A profile as it is listed.
#[derive(Debug, Clone, PartialEq, Eq)]
pub struct ProfileListRow {
    pub name: String,
    pub uuid: String,
    pub is_active: bool,
    pub state_label: &'static str,
    pub eligible: bool,
}

/// A row, as texts.
#[verifier::ext_equal]
pub struct RowView {
    pub name: Seq<char>,
    pub uuid: Seq<char>,
    pub is_active: bool,
    pub state_label: Seq<char>,
    pub eligible: bool,
}

impl View for ProfileListRow {
    type V = RowView;

    open spec fn view(&self) -> RowView {
        RowView {
            name: self.name@,
            uuid: self.uuid@,
            is_active: self.is_active,
            state_label: self.state_label@,
            eligible: self.eligible,
        }
    }
}

/// The line of a row.
pub open spec fn row_line(row: RowView) -> Seq<char> {
    row.name + " ["@ + row.state_label + "] "@ + if row.eligible {
        "eligible"@
    } else {
        "not-eligible"@
    }
}

/// The line of a row.
pub fn format_cli_row(row: &ProfileListRow) -> (r: String)
    ensures
        r@ == row_line(row@),
{
    let eligible = if row.eligible { "eligible" } else { "not-eligible" };
    row.name.clone().concat(" [").concat(row.state_label).concat("] ").concat(eligible)
}

/// The row of a profile. A profile is eligible unless it is excluded.
pub open spec fn row_of(p: ProfileView, excluded: Set<Seq<char>>) -> RowView {
    RowView {
        name: p.name,
        uuid: p.uuid,
        is_active: p.state == ProfileState::Active,
        state_label: if p.state == ProfileState::Active {
            "active"@
        } else {
            "inactive"@
        },
        eligible: !excluded.contains(p.uuid),
    }
}

/// The names of profiles.
pub open spec fn names_of(profiles: Seq<ProfileView>) -> Seq<Seq<char>> {
    profiles.map_values(|p: ProfileView| p.name)
}

/// Whether rows list the profiles by name, and profiles of one name in the order
/// in which they were given.
pub open spec fn lists_by_name(
    rows: Seq<ProfileListRow>,
    profiles: Seq<ProfileView>,
    excluded: Set<Seq<char>>,
) -> bool {
    &&& rows.len() == profiles.len()
    &&& exists|order: Seq<usize>| #[trigger]
        is_stable_order(order, names_of(profiles)) && forall|i: int|
            0 <= i < rows.len() ==> (#[trigger] rows[i])@ == row_of(
                profiles[order[i] as int],
                excluded,
            )
}

/// The row of a profile.
fn build_row(profile: &WireguardProfile, excluded: &IdSet) -> (r: ProfileListRow)
    ensures
        r@ == row_of(profile@, excluded@),
{
    let is_active = profile.is_active();
    ProfileListRow {
        name: profile.name.clone(),
        uuid: profile.uuid.clone(),
        is_active,
        state_label: if is_active { "active" } else { "inactive" },
        eligible: !excluded.contains(profile.uuid.as_str()),
    }
}

/// The rows of profiles, by name.
pub fn build_rows(profiles: &[WireguardProfile], excluded_profile_ids: &IdSet) -> (r: Vec<
    ProfileListRow,
>)
    ensures
        lists_by_name(r@, profile_views(profiles@), excluded_profile_ids@),
{
    let ghost views = profile_views(profiles@);
    let mut names: Vec<&str> = Vec::new();
    let mut i: usize = 0;
    while i < profiles.len()
        invariant
            i <= profiles.len(),
            views == profile_views(profiles@),
            names.deep_view() == names_of(views).take(i as int),
        decreases profiles.len() - i,
    {
        let ghost before = names.deep_view();
        names.push(profiles[i].name.as_str());
        assert(names.deep_view() =~= before.push(names_of(views)[i as int]));
        i += 1;
    }
    assert(names_of(views).take(i as int) =~= names_of(views));
    let list = names.as_slice();
    assert(list.deep_view() =~= names.deep_view());
    let order = stable_order(list);
    let mut rows: Vec<ProfileListRow> = Vec::new();
    let mut j: usize = 0;
    while j < order.len()
        invariant
            j <= order.len(),
            views == profile_views(profiles@),
            is_stable_order(order@, names_of(views)),
            rows.len() == j,
            forall|k: int|
                0 <= k < j ==> (#[trigger] rows@[k])@ == row_of(
                    views[order@[k] as int],
                    excluded_profile_ids@,
                ),
        decreases order.len() - j,
    {
        let p = order[j];
        assert(order@[j as int] < names_of(views).len());
        rows.push(build_row(&profiles[p], excluded_profile_ids));
        j += 1;
    }
    rows
}

/// Whether a row is that of a profile: it has its name, its identifier, whether it is
/// up, and whether it may be selected at random, which it may where it is not
/// excluded.
pub open spec fn tells_of(row: RowView, p: ProfileView, excluded: Set<Seq<char>>) -> bool {
    &&& row.name == p.name
    &&& row.uuid == p.uuid
    &&& row.is_active <==> p.state == ProfileState::Active
    &&& row.eligible <==> !excluded.contains(p.uuid)
}

/// The list has a row for each profile and no other row.
pub proof fn law_rows(
    rows: Seq<ProfileListRow>,
    profiles: Seq<ProfileView>,
    excluded: Set<Seq<char>>,
    i: int,
)
    requires
        lists_by_name(rows, profiles, excluded),
        profiles.len() <= usize::MAX,
        0 <= i < rows.len(),
    ensures
        rows.len() == profiles.len(),
        exists|k: int|
            0 <= k < profiles.len() && tells_of(rows[i]@, #[trigger] profiles[k], excluded),
        exists|k: int|
            0 <= k < rows.len() && tells_of((#[trigger] rows[k])@, profiles[i], excluded),
{
    let names = names_of(profiles);
    let order = choose|order: Seq<usize>| #[trigger]
        is_stable_order(order, names) && forall|i: int|
            0 <= i < rows.len() ==> (#[trigger] rows[i])@ == row_of(
                profiles[order[i] as int],
                excluded,
            );
    assert(0 <= order[i] < names.len());
    assert(rows[i]@ == row_of(profiles[order[i] as int], excluded));
    assert(tells_of(rows[i]@, profiles[order[i] as int], excluded));
    assert(i as usize == i);
    assert(order.contains(i as usize));
    let k = choose|k: int| 0 <= k < order.len() && order[k] == i as usize;
    assert(rows[k]@ == row_of(profiles[order[k] as int], excluded));
    assert(tells_of(rows[k]@, profiles[i], excluded));
}

/// The rows are sorted by name.
pub proof fn law_rows_are_sorted(
    rows: Seq<ProfileListRow>,
    profiles: Seq<ProfileView>,
    excluded: Set<Seq<char>>,
    i: int,
    j: int,
)
    requires
        lists_by_name(rows, profiles, excluded),
        0 <= i < j < rows.len(),
    ensures
        text_before(rows[i]@.name, rows[j]@.name) || rows[i]@.name == rows[j]@.name,
{
    let names = names_of(profiles);
    let order = choose|order: Seq<usize>| #[trigger]
        is_stable_order(order, names) && forall|i: int|
            0 <= i < rows.len() ==> (#[trigger] rows[i])@ == row_of(
                profiles[order[i] as int],
                excluded,
            );
    assert(comes_before(names, order[i] as int, order[j] as int));
    assert(0 <= order[i] < names.len() && 0 <= order[j] < names.len());
    assert(rows[i]@ == row_of(profiles[order[i] as int], excluded));
    assert(rows[j]@ == row_of(profiles[order[j] as int], excluded));
}

} // verus!
