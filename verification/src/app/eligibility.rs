//! Which profiles can be selected at random at startup.

use vstd::prelude::*;
use vstd::string::*;

use crate::collections::IdSet;

verus! {

/// The excluded profiles after one is made eligible or excluded.
pub open spec fn with_eligible(
    excluded: Set<Seq<char>>,
    id: Seq<char>,
    eligible: bool,
) -> Set<Seq<char>> {
    if eligible {
        excluded.remove(id)
    } else {
        excluded.insert(id)
    }
}

/// Make a profile eligible, by taking it out of the excluded ones, or exclude it.
/// The result says whether that changed anything.
pub fn set_profile_eligible(
    excluded_profile_ids: &mut IdSet,
    profile_id: &str,
    eligible: bool,
) -> (r: bool)
    ensures
        final(excluded_profile_ids)@ == with_eligible(
            old(excluded_profile_ids)@,
            profile_id@,
            eligible,
        ),
        r == (old(excluded_profile_ids)@.contains(profile_id@) == eligible),
{
    if eligible {
        excluded_profile_ids.remove(profile_id)
    } else {
        excluded_profile_ids.insert(profile_id.to_owned())
    }
}

/// A profile is eligible exactly where it was last made so; all others stay as
/// they were, and doing the same again changes nothing.
pub proof fn law_eligibility(
    excluded: Set<Seq<char>>,
    id: Seq<char>,
    other: Seq<char>,
    eligible: bool,
)
    ensures
        with_eligible(excluded, id, eligible).contains(id) == !eligible,
        other != id ==> with_eligible(excluded, id, eligible).contains(other) == excluded.contains(
            other,
        ),
        with_eligible(with_eligible(excluded, id, eligible), id, eligible) == with_eligible(
            excluded,
            id,
            eligible,
        ),
        excluded.contains(id) == eligible ==> with_eligible(
            with_eligible(excluded, id, eligible),
            id,
            !eligible,
        ) == excluded,
{
    let once = with_eligible(excluded, id, eligible);
    assert(with_eligible(once, id, eligible) =~= once);
    if excluded.contains(id) == eligible {
        assert(with_eligible(once, id, !eligible) =~= excluded);
    }
}

} // verus!
