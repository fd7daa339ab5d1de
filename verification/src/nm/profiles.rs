//! WireGuard profiles: reading them from the output of `nmcli`, and finding them.

use vstd::prelude::*;
use vstd::string::*;

use crate::error::AppError;
use crate::order::{is_stable_order, stable_order};
use crate::text::{chars_of, lines, lines_of, same};

verus! {

/// Whether a profile is up.
#[derive(Debug, Clone, Copy, PartialEq, Eq, Structural)]
pub enum ProfileState {
    Active,
    Inactive,
}

/// A WireGuard profile of NetworkManager.
#[derive(Debug)]
pub struct WireguardProfile {
    pub name: String,
    pub uuid: String,
    pub state: ProfileState,
}

/// A profile, as texts.
#[verifier::ext_equal]
pub struct ProfileView {
    pub name: Seq<char>,
    pub uuid: Seq<char>,
    pub state: ProfileState,
}

impl View for WireguardProfile {
    type V = ProfileView;

    open spec fn view(&self) -> ProfileView {
        ProfileView { name: self.name@, uuid: self.uuid@, state: self.state }
    }
}

/// The views of a list of profiles.
pub open spec fn profile_views(profiles: Seq<WireguardProfile>) -> Seq<ProfileView> {
    profiles.map_values(|p: WireguardProfile| p@)
}

impl WireguardProfile {
    /// Whether the profile is up.
    pub fn is_active(&self) -> (r: bool)
        ensures
            r == (self@.state == ProfileState::Active),
    {
        match self.state {
            ProfileState::Active => true,
            ProfileState::Inactive => false,
        }
    }
}

impl Clone for WireguardProfile {
    fn clone(&self) -> (r: WireguardProfile)
        ensures
            r@ == self@,
    {
        WireguardProfile { name: self.name.clone(), uuid: self.uuid.clone(), state: self.state }
    }
}

// ---------------------------------------------------------------------------
// Terse output
// ---------------------------------------------------------------------------

/// `fields` with `front` put before the first of them.
pub open spec fn with_front(front: Seq<char>, fields: Seq<Seq<char>>) -> Seq<Seq<char>> {
    seq![front + fields[0]] + fields.skip(1)
}

/// The fields of a line of terse output: colons separate them, a backslash takes
/// the next character as it is, and a backslash at the end stands for itself.
pub open spec fn fields_of(s: Seq<char>) -> Seq<Seq<char>>
    decreases s.len(),
{
    if s.len() == 0 {
        seq![Seq::empty()]
    } else if s[0] == '\\' {
        if s.len() == 1 {
            seq![s]
        } else {
            with_front(seq![s[1]], fields_of(s.skip(2)))
        }
    } else if s[0] == ':' {
        seq![Seq::<char>::empty()] + fields_of(s.skip(1))
    } else {
        with_front(seq![s[0]], fields_of(s.skip(1)))
    }
}

/// A line has at least one field.
pub proof fn lemma_fields_nonempty(s: Seq<char>)
    ensures
        fields_of(s).len() > 0,
    decreases s.len(),
{
    if s.len() > 0 {
        if s[0] == '\\' {
            if s.len() > 1 {
                lemma_fields_nonempty(s.skip(2));
            }
        } else {
            lemma_fields_nonempty(s.skip(1));
        }
    }
}

/// Fronts that follow each other.
proof fn lemma_front_twice(a: Seq<char>, c: char, fields: Seq<Seq<char>>)
    requires
        fields.len() > 0,
    ensures
        with_front(a, with_front(seq![c], fields)) == with_front(a.push(c), fields),
{
    let inner = with_front(seq![c], fields);
    assert(inner[0] == seq![c] + fields[0]);
    assert(inner.skip(1) =~= fields.skip(1));
    assert(a + (seq![c] + fields[0]) =~= a.push(c) + fields[0]);
}

/// The fields of a line of terse output.
pub fn parse_nmcli_fields(line: &str) -> (r: Vec<String>)
    ensures
        r.deep_view() == fields_of(line@),
{
    let cs = chars_of(line);
    let mut fields: Vec<String> = Vec::new();
    let mut field = String::new();
    let mut i: usize = 0;
    proof {
        assert(cs@.skip(0) =~= cs@);
        lemma_fields_nonempty(cs@);
        let all = fields_of(cs@);
        assert(Seq::<char>::empty() + all[0] =~= all[0]);
        assert(seq![all[0]] + all.skip(1) =~= all);
        assert(fields.deep_view() + with_front(Seq::empty(), all) =~= all);
    }
    while i < cs.len()
        invariant
            i <= cs.len(),
            cs@ == line@,
            fields.deep_view() + with_front(field@, fields_of(cs@.skip(i as int))) == fields_of(
                line@,
            ),
        decreases cs.len() - i,
    {
        let ghost rest = cs@.skip(i as int);
        let ghost before = fields.deep_view();
        let ghost front = field@;
        let c = cs[i];
        assert(rest[0] == c);
        if c == '\\' {
            if i + 1 < cs.len() {
                proof {
                    assert(rest[1] == cs@[i as int + 1]);
                    assert(rest.skip(2) =~= cs@.skip(i as int + 2));
                    lemma_fields_nonempty(cs@.skip(i as int + 2));
                    lemma_front_twice(front, cs@[i as int + 1], fields_of(cs@.skip(i as int + 2)));
                }
                field.push(cs[i + 1]);
                i += 2;
            } else {
                proof {
                    assert(rest =~= seq!['\\']);
                    assert(fields_of(rest) =~= seq![rest]);
                    assert(front + rest =~= front.push('\\'));
                    assert(cs@.skip(i as int + 1) =~= Seq::<char>::empty());
                    assert(with_front(front, fields_of(rest)) =~= seq![front.push('\\')]);
                    assert(with_front(front.push('\\'), seq![Seq::<char>::empty()]) =~= seq![
                        front.push('\\'),
                    ]) by {
                        assert(front.push('\\') + Seq::<char>::empty() =~= front.push('\\'));
                    }
                }
                field.push('\\');
                i += 1;
            }
        } else if c == ':' {
            proof {
                assert(rest.skip(1) =~= cs@.skip(i as int + 1));
                let more = fields_of(cs@.skip(i as int + 1));
                lemma_fields_nonempty(cs@.skip(i as int + 1));
                assert(fields_of(rest) == seq![Seq::<char>::empty()] + more);
                assert(fields_of(rest)[0] =~= Seq::<char>::empty());
                assert(front + Seq::<char>::empty() =~= front);
                assert(fields_of(rest).skip(1) =~= more);
                assert(with_front(front, fields_of(rest)) =~= seq![front] + more);
                assert(Seq::<char>::empty() + more[0] =~= more[0]);
                assert(with_front(Seq::empty(), more) =~= more);
                assert(before + (seq![front] + more) =~= before.push(front) + more);
            }
            fields.push(field);
            assert(fields.deep_view() =~= before.push(front));
            field = String::new();
            i += 1;
        } else {
            proof {
                assert(rest.skip(1) =~= cs@.skip(i as int + 1));
                lemma_fields_nonempty(cs@.skip(i as int + 1));
                lemma_front_twice(front, c, fields_of(cs@.skip(i as int + 1)));
            }
            field.push(c);
            i += 1;
        }
    }
    proof {
        assert(cs@.skip(i as int) =~= Seq::<char>::empty());
        assert(field@ + Seq::<char>::empty() =~= field@);
        assert(with_front(field@, seq![Seq::<char>::empty()]) =~= seq![field@]);
    }
    let ghost before = fields.deep_view();
    let ghost last = field@;
    fields.push(field);
    assert(fields.deep_view() =~= before + seq![last]);
    fields
}

/// A field as terse output writes it: with a backslash before each colon and each
/// backslash.
pub open spec fn escaped(f: Seq<char>) -> Seq<char>
    decreases f.len(),
{
    if f.len() == 0 {
        Seq::empty()
    } else if f[0] == ':' || f[0] == '\\' {
        seq!['\\', f[0]] + escaped(f.skip(1))
    } else {
        seq![f[0]] + escaped(f.skip(1))
    }
}

/// A line of terse output: the escaped fields with colons between them.
pub open spec fn terse_line(fields: Seq<Seq<char>>) -> Seq<char>
    decreases fields.len(),
{
    if fields.len() == 0 {
        Seq::empty()
    } else if fields.len() == 1 {
        escaped(fields[0])
    } else {
        escaped(fields[0]) + seq![':'] + terse_line(fields.skip(1))
    }
}

/// An escaped field is read back before whatever follows it.
proof fn lemma_escaped_front(f: Seq<char>, rest: Seq<char>)
    ensures
        fields_of(escaped(f) + rest) == with_front(f, fields_of(rest)),
    decreases f.len(),
{
    lemma_fields_nonempty(rest);
    let more = fields_of(rest);
    if f.len() == 0 {
        assert(escaped(f) + rest =~= rest);
        assert(f + more[0] =~= more[0]);
        assert(with_front(f, more) =~= more);
    } else {
        let t = f.skip(1);
        lemma_escaped_front(t, rest);
        let s = escaped(f) + rest;
        let tail = escaped(t) + rest;
        let c = f[0];
        if c == ':' || c == '\\' {
            assert(s =~= seq!['\\', c] + tail);
            assert(s.skip(2) =~= tail);
        } else {
            assert(s =~= seq![c] + tail);
            assert(s.skip(1) =~= tail);
        }
        assert(fields_of(s) == with_front(seq![c], fields_of(tail)));
        assert(with_front(seq![c], with_front(t, more)) =~= with_front(f, more)) by {
            assert(seq![c] + (t + more[0]) =~= f + more[0]);
            assert(with_front(t, more).skip(1) =~= more.skip(1));
        }
    }
}

/// Fields read back from terse output, whatever characters they hold.
pub proof fn law_terse_fields_read_back(fields: Seq<Seq<char>>)
    requires
        fields.len() > 0,
    ensures
        fields_of(terse_line(fields)) == fields,
    decreases fields.len(),
{
    if fields.len() == 1 {
        lemma_escaped_front(fields[0], Seq::empty());
        assert(escaped(fields[0]) + Seq::<char>::empty() =~= escaped(fields[0]));
        assert(fields[0] + Seq::<char>::empty() =~= fields[0]);
        assert(fields =~= seq![fields[0]]);
        assert(with_front(fields[0], seq![Seq::<char>::empty()]) =~= fields);
    } else {
        let more = fields.skip(1);
        law_terse_fields_read_back(more);
        let rest = seq![':'] + terse_line(more);
        lemma_escaped_front(fields[0], rest);
        assert(escaped(fields[0]) + seq![':'] + terse_line(more) =~= escaped(fields[0]) + rest);
        assert(rest.skip(1) =~= terse_line(more));
        assert(fields_of(rest) == seq![Seq::<char>::empty()] + more);
        assert(fields[0] + Seq::<char>::empty() =~= fields[0]);
        assert(with_front(fields[0], fields_of(rest)) =~= fields);
    }
}

/// The name, the identifier and the type that a line of terse output holds.
pub fn parse_nmcli_triplet(line: &str) -> (r: Result<(String, String, String), AppError>)
    ensures
        match r {
            Ok((a, b, c)) => fields_of(line@) == seq![a@, b@, c@],
            Err(e) => fields_of(line@).len() != 3 && (e matches AppError::NmParseFailed(m) && m@
                == line@),
        },
{
    let mut fields = parse_nmcli_fields(line);
    if fields.len() != 3 {
        return Err(AppError::NmParseFailed(line.to_owned()));
    }
    let ghost all = fields.deep_view();
    assert(all.len() == 3);
    let c = fields[2].clone();
    let b = fields[1].clone();
    let a = fields[0].clone();
    assert(all =~= seq![a@, b@, c@]);
    Ok((a, b, c))
}

// ---------------------------------------------------------------------------
// The list of profiles
// ---------------------------------------------------------------------------

/// Whether every line holds three fields.
pub open spec fn all_triplets(rows: Seq<Seq<char>>) -> bool {
    forall|i: int| 0 <= i < rows.len() ==> fields_of(#[trigger] rows[i]).len() == 3
}

/// The first line that does not hold three fields.
pub open spec fn first_bad(rows: Seq<Seq<char>>, i: int) -> Option<Seq<char>>
    decreases rows.len() - i,
{
    if i < 0 || i >= rows.len() {
        None
    } else if fields_of(rows[i]).len() != 3 {
        Some(rows[i])
    } else {
        first_bad(rows, i + 1)
    }
}

/// Whether `uuid` is a WireGuard connection in the given lines.
pub open spec fn lists_wireguard(rows: Seq<Seq<char>>, uuid: Seq<char>) -> bool {
    exists|i: int|
        0 <= i < rows.len() && fields_of(#[trigger] rows[i])[1] == uuid && fields_of(rows[i])[2]
            == "wireguard"@
}

/// The profiles that lines list, in the order of the lines: the WireGuard
/// connections, each active where the active connections list it.
pub open spec fn listed(rows: Seq<Seq<char>>, active: Seq<Seq<char>>) -> Seq<ProfileView>
    decreases rows.len(),
{
    if rows.len() == 0 {
        Seq::empty()
    } else {
        let before = listed(rows.drop_last(), active);
        let fields = fields_of(rows.last());
        if fields[2] == "wireguard"@ {
            before.push(
                ProfileView {
                    name: fields[0],
                    uuid: fields[1],
                    state: if lists_wireguard(active, fields[1]) {
                        ProfileState::Active
                    } else {
                        ProfileState::Inactive
                    },
                },
            )
        } else {
            before
        }
    }
}

/// The names of profiles.
pub open spec fn names_of(profiles: Seq<ProfileView>) -> Seq<Seq<char>> {
    profiles.map_values(|p: ProfileView| p.name)
}

/// Whether `sorted` is `listed` in the order of the names, where profiles of the
/// same name keep their order.
pub open spec fn is_sorted_list(sorted: Seq<ProfileView>, list: Seq<ProfileView>) -> bool {
    exists|order: Seq<usize>| #[trigger]
        is_stable_order(order, names_of(list)) && sorted == order.map_values(
            |k: usize| list[k as int],
        )
}

/// The view of a list of active identifiers.
fn active_uuids(rows: &Vec<&str>) -> (r: Result<Vec<String>, AppError>)
    ensures
        match r {
            Ok(list) => all_triplets(rows.deep_view()) && forall|u: Seq<char>| #[trigger]
                list.deep_view().contains(u) <==> lists_wireguard(rows.deep_view(), u),
            Err(e) => first_bad(rows.deep_view(), 0) is Some && (e matches AppError::NmParseFailed(
                m,
            ) && m@ == first_bad(rows.deep_view(), 0)->0),
        },
        r is Ok ==> first_bad(rows.deep_view(), 0) is None,
{
    let ghost all = rows.deep_view();
    let mut list: Vec<String> = Vec::new();
    let mut i: usize = 0;
    assert(list.deep_view() =~= Seq::<Seq<char>>::empty());
    while i < rows.len()
        invariant
            i <= rows.len(),
            all == rows.deep_view(),
            first_bad(all, 0) == first_bad(all, i as int),
            forall|k: int| 0 <= k < i ==> fields_of(#[trigger] all[k]).len() == 3,
            forall|u: Seq<char>| #[trigger]
                list.deep_view().contains(u) <==> lists_wireguard(all.take(i as int), u),
        decreases rows.len() - i,
    {
        assert(all[i as int] == rows[i as int]@);
        let ghost now = all.take(i as int);
        let ghost next = all.take(i as int + 1);
        match parse_nmcli_triplet(rows[i]) {
            Ok((_, uuid, kind)) => {
                let ghost before = list.deep_view();
                let ghost id = uuid@;
                let wireguard = same(kind.as_str(), "wireguard");
                proof {
                    assert forall|u: Seq<char>| #[trigger]
                        lists_wireguard(next, u) <==> lists_wireguard(now, u) || (wireguard && u
                            == id) by {
                        if lists_wireguard(next, u) {
                            let k = choose|k: int|
                                0 <= k < next.len() && fields_of(#[trigger] next[k])[1] == u
                                    && fields_of(next[k])[2] == "wireguard"@;
                            if k < i {
                                assert(now[k] == next[k]);
                            }
                        }
                        if lists_wireguard(now, u) {
                            let k = choose|k: int|
                                0 <= k < now.len() && fields_of(#[trigger] now[k])[1] == u
                                    && fields_of(now[k])[2] == "wireguard"@;
                            assert(next[k] == now[k]);
                        }
                        if wireguard && u == id {
                            assert(next[i as int] == all[i as int]);
                        }
                    }
                }
                if wireguard {
                    list.push(uuid);
                    proof {
                        let after = list.deep_view();
                        assert(after =~= before.push(id));
                        assert forall|u: Seq<char>| #[trigger]
                            after.contains(u) <==> lists_wireguard(next, u) by {
                            if before.contains(u) {
                                let k = choose|k: int| 0 <= k < before.len() && before[k] == u;
                                assert(after[k] == u);
                            }
                            if u == id {
                                assert(after[before.len() as int] == u);
                            }
                            if after.contains(u) && u != id {
                                let k = choose|k: int| 0 <= k < after.len() && after[k] == u;
                                assert(before[k] == u);
                            }
                        }
                    }
                }
            },
            Err(e) => {
                return Err(e);
            },
        }
        i += 1;
    }
    assert(all.take(i as int) =~= all);
    Ok(list)
}

/// The profiles in the order of their names.
fn sorted_by_name(list: Vec<WireguardProfile>) -> (r: Vec<WireguardProfile>)
    ensures
        is_sorted_list(profile_views(r@), profile_views(list@)),
{
    let ghost views = profile_views(list@);
    let mut names: Vec<&str> = Vec::new();
    let mut i: usize = 0;
    while i < list.len()
        invariant
            i <= list.len(),
            views == profile_views(list@),
            names.deep_view() == names_of(views).take(i as int),
        decreases list.len() - i,
    {
        let ghost before = names.deep_view();
        names.push(list[i].name.as_str());
        assert(names.deep_view() =~= before.push(names_of(views)[i as int]));
        i += 1;
    }
    assert(names_of(views).take(i as int) =~= names_of(views));
    let keys = names.as_slice();
    assert(keys.deep_view() =~= names.deep_view());
    let order = stable_order(keys);
    let ghost target = order@.map_values(|k: usize| views[k as int]);
    let mut r: Vec<WireguardProfile> = Vec::new();
    let mut j: usize = 0;
    while j < order.len()
        invariant
            j <= order.len(),
            views == profile_views(list@),
            is_stable_order(order@, names_of(views)),
            target == order@.map_values(|k: usize| views[k as int]),
            profile_views(r@) == target.take(j as int),
        decreases order.len() - j,
    {
        let ghost before = profile_views(r@);
        let p = list[order[j]].clone();
        r.push(p);
        assert(profile_views(r@) =~= before.push(target[j as int]));
        j += 1;
    }
    assert(target.take(j as int) =~= target);
    r
}

/// The WireGuard profiles, from the terse output that lists all connections and
/// the one that lists the active ones.
pub fn profiles_from(connections: &str, active: &str) -> (r: Result<Vec<WireguardProfile>, AppError>)
    ensures
        match r {
            Ok(list) => first_bad(lines_of(active@), 0) is None && first_bad(
                lines_of(connections@),
                0,
            ) is None && is_sorted_list(
                profile_views(list@),
                listed(lines_of(connections@), lines_of(active@)),
            ),
            Err(e) => e matches AppError::NmParseFailed(m) && Some(m@) == (match first_bad(
                lines_of(active@),
                0,
            ) {
                Some(line) => Some(line),
                None => first_bad(lines_of(connections@), 0),
            }),
        },
{
    let active_rows = lines(active);
    let ghost up = active_rows.deep_view();
    let ids = match active_uuids(&active_rows) {
        Ok(ids) => ids,
        Err(e) => {
            return Err(e);
        },
    };
    let rows = lines(connections);
    let ghost all = rows.deep_view();
    let mut list: Vec<WireguardProfile> = Vec::new();
    let mut i: usize = 0;
    assert(profile_views(list@) =~= Seq::<ProfileView>::empty());
    while i < rows.len()
        invariant
            i <= rows.len(),
            all == rows.deep_view(),
            all == lines_of(connections@),
            up == lines_of(active@),
            first_bad(up, 0) is None,
            first_bad(all, 0) == first_bad(all, i as int),
            forall|u: Seq<char>| #[trigger]
                ids.deep_view().contains(u) <==> lists_wireguard(up, u),
            profile_views(list@) == listed(all.take(i as int), up),
        decreases rows.len() - i,
    {
        proof {
            let next = all.take(i as int + 1);
            assert(next.drop_last() =~= all.take(i as int));
            assert(next.last() == rows[i as int]@);
        }
        match parse_nmcli_triplet(rows[i]) {
            Ok((name, uuid, kind)) => {
                if same(kind.as_str(), "wireguard") {
                    let known = ids.as_slice();
                    assert(known.deep_view() =~= ids.deep_view());
                    let state = if crate::text::has_text(known, uuid.as_str()) {
                        ProfileState::Active
                    } else {
                        ProfileState::Inactive
                    };
                    let p = WireguardProfile { name, uuid, state };
                    let ghost before = profile_views(list@);
                    let ghost view = p@;
                    list.push(p);
                    assert(profile_views(list@) =~= before.push(view));
                }
            },
            Err(e) => {
                return Err(e);
            },
        }
        i += 1;
    }
    assert(all.take(i as int) =~= all);
    Ok(sorted_by_name(list))
}

// ---------------------------------------------------------------------------
// Finding a profile
// ---------------------------------------------------------------------------

/// Whether the profile at `i` has the given name.
pub open spec fn named(profiles: Seq<ProfileView>, name: Seq<char>, i: int) -> bool {
    0 <= i < profiles.len() && profiles[i].name == name
}

/// Whether `p` is the only profile of the given name.
pub open spec fn is_only_named(profiles: Seq<ProfileView>, name: Seq<char>, p: ProfileView) -> bool {
    exists|i: int| #[trigger]
        named(profiles, name, i) && profiles[i] == p && forall|j: int| #[trigger]
            named(profiles, name, j) ==> j == i
}

/// What finding a profile by its name gives.
pub open spec fn found_by_name(
    r: Result<ProfileView, AppError>,
    profiles: Seq<ProfileView>,
    name: Seq<char>,
) -> bool {
    match r {
        Ok(p) => is_only_named(profiles, name, p),
        Err(AppError::ProfileNotFound(m)) => m@ == name && forall|i: int|
            !#[trigger] named(profiles, name, i),
        Err(AppError::AmbiguousProfileName(m)) => m@ == name && exists|i: int, j: int|
            i < j && #[trigger] named(profiles, name, i) && #[trigger] named(profiles, name, j),
        Err(_) => false,
    }
}

/// The view of a found profile.
pub open spec fn found_view(r: Result<&WireguardProfile, AppError>) -> Result<ProfileView, AppError> {
    match r {
        Ok(p) => Ok(p@),
        Err(e) => Err(e),
    }
}

/// The profile of the given name, where there is exactly one.
pub fn find_unique_profile_by_name<'a>(
    profiles: &'a [WireguardProfile],
    profile_name: &str,
) -> (r: Result<&'a WireguardProfile, AppError>)
    ensures
        found_by_name(found_view(r), profile_views(profiles@), profile_name@),
{
    let ghost views = profile_views(profiles@);
    let mut first: Option<usize> = None;
    let mut i: usize = 0;
    while i < profiles.len()
        invariant
            i <= profiles.len(),
            views == profile_views(profiles@),
            match first {
                Some(k) => k < i && named(views, profile_name@, k as int) && forall|j: int|
                    j < i && #[trigger] named(views, profile_name@, j) ==> j == k,
                None => forall|j: int| j < i ==> !#[trigger] named(views, profile_name@, j),
            },
        decreases profiles.len() - i,
    {
        assert(views[i as int] == profiles[i as int]@);
        if same(profiles[i].name.as_str(), profile_name) {
            assert(named(views, profile_name@, i as int));
            match first {
                Some(k) => {
                    assert(named(views, profile_name@, k as int));
                    return Err(AppError::AmbiguousProfileName(profile_name.to_owned()));
                },
                None => {
                    first = Some(i);
                },
            }
        }
        i += 1;
    }
    match first {
        Some(k) => {
            let p = &profiles[k];
            assert(named(views, profile_name@, k as int) && views[k as int] == p@);
            Ok(p)
        },
        None => Err(AppError::ProfileNotFound(profile_name.to_owned())),
    }
}

/// Whether the profile at `i` has the given identifier.
pub open spec fn identified(profiles: Seq<ProfileView>, uuid: Seq<char>, i: int) -> bool {
    0 <= i < profiles.len() && profiles[i].uuid == uuid
}

/// Whether `p` is the first profile with the given identifier.
pub open spec fn is_first_identified(
    profiles: Seq<ProfileView>,
    uuid: Seq<char>,
    p: ProfileView,
) -> bool {
    exists|i: int| #[trigger]
        identified(profiles, uuid, i) && profiles[i] == p && forall|j: int|
            j < i ==> !#[trigger] identified(profiles, uuid, j)
}

/// What finding a profile by its identifier or its name gives.
pub open spec fn found_by_identifier(
    r: Result<ProfileView, AppError>,
    profiles: Seq<ProfileView>,
    identifier: Seq<char>,
) -> bool {
    if exists|i: int| #[trigger] identified(profiles, identifier, i) {
        r matches Ok(p) && is_first_identified(profiles, identifier, p)
    } else {
        found_by_name(r, profiles, identifier)
    }
}

/// The profile with the given identifier, else the only one of that name.
pub fn find_unique_profile_by_identifier<'a>(
    profiles: &'a [WireguardProfile],
    profile_identifier: &str,
) -> (r: Result<&'a WireguardProfile, AppError>)
    ensures
        found_by_identifier(found_view(r), profile_views(profiles@), profile_identifier@),
{
    let ghost views = profile_views(profiles@);
    let mut i: usize = 0;
    while i < profiles.len()
        invariant
            i <= profiles.len(),
            views == profile_views(profiles@),
            forall|j: int| j < i ==> !#[trigger] identified(views, profile_identifier@, j),
        decreases profiles.len() - i,
    {
        assert(views[i as int] == profiles[i as int]@);
        if same(profiles[i].uuid.as_str(), profile_identifier) {
            let p = &profiles[i];
            assert(identified(views, profile_identifier@, i as int) && views[i as int] == p@);
            return Ok(p);
        }
        i += 1;
    }
    find_unique_profile_by_name(profiles, profile_identifier)
}

/// The index of the first active profile at or after `i`, or the length.
pub open spec fn first_active(profiles: Seq<ProfileView>, i: int) -> int
    decreases profiles.len() - i,
{
    if i < 0 || i >= profiles.len() {
        profiles.len() as int
    } else if profiles[i].state == ProfileState::Active {
        i
    } else {
        first_active(profiles, i + 1)
    }
}

/// The first active profile.
pub open spec fn active_of(profiles: Seq<ProfileView>) -> Option<ProfileView> {
    let i = first_active(profiles, 0);
    if i < profiles.len() {
        Some(profiles[i])
    } else {
        None
    }
}

/// The first active profile.
pub fn active_profile<'a>(profiles: &'a [WireguardProfile]) -> (r: Option<&'a WireguardProfile>)
    ensures
        (match r {
            Some(p) => Some(p@),
            None => None,
        }) == active_of(profile_views(profiles@)),
{
    let ghost views = profile_views(profiles@);
    let mut i: usize = 0;
    while i < profiles.len()
        invariant
            i <= profiles.len(),
            views == profile_views(profiles@),
            first_active(views, 0) == first_active(views, i as int),
        decreases profiles.len() - i,
    {
        assert(views[i as int] == profiles[i as int]@);
        if profiles[i].is_active() {
            return Some(&profiles[i]);
        }
        i += 1;
    }
    None
}

} // verus!
