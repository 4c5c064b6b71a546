//! Priority-sorted profile lists without repeated names.

use std::sync::Arc;

use vstd::prelude::*;

use crate::device::{share, shared_views};
use crate::profile::{profile_views, Profile, ProfileView};

verus! {

/// True when some profile of `s` is named `name`.
pub open spec fn has_name(s: Seq<ProfileView>, name: Seq<char>) -> bool {
    exists|i: int| 0 <= i < s.len() && (#[trigger] s[i]).name == name
}

/// Where a profile of priority `prio` goes in `s`: before the first profile
/// of lower priority, so that equal priorities keep their order of arrival.
pub open spec fn insert_pos(s: Seq<ProfileView>, prio: int) -> int
    decreases s.len(),
{
    if s.len() == 0 {
        0
    } else if s[0].priority < prio {
        0
    } else {
        1 + insert_pos(s.drop_first(), prio)
    }
}

/// `s` with `p` added at its place by priority, unless a profile of that
/// name is already there.
pub open spec fn add_sorted(s: Seq<ProfileView>, p: ProfileView) -> Seq<ProfileView> {
    if has_name(s, p.name) {
        s
    } else {
        s.insert(insert_pos(s, p.priority), p)
    }
}

/// `s` with each profile of `ps` added in turn.
pub open spec fn add_all(s: Seq<ProfileView>, ps: Seq<ProfileView>) -> Seq<ProfileView>
    decreases ps.len(),
{
    if ps.len() == 0 {
        s
    } else {
        add_sorted(add_all(s, ps.drop_last()), ps.last())
    }
}

/// Highest priority first.
pub open spec fn sorted_by_priority(s: Seq<ProfileView>) -> bool {
    forall|i: int, j: int| 0 <= i < j < s.len() ==> (#[trigger] s[i]).priority >= (#[trigger] s[j]).priority
}

/// No two profiles share a name.
pub open spec fn unique_names(s: Seq<ProfileView>) -> bool {
    forall|i: int, j: int| 0 <= i < j < s.len() ==> (#[trigger] s[i]).name != (#[trigger] s[j]).name
}

pub proof fn lemma_insert_pos(s: Seq<ProfileView>, prio: int)
    ensures
        0 <= insert_pos(s, prio) <= s.len(),
        forall|i: int| 0 <= i < insert_pos(s, prio) ==> (#[trigger] s[i]).priority >= prio,
        insert_pos(s, prio) < s.len() ==> s[insert_pos(s, prio)].priority < prio,
    decreases s.len(),
{
    if s.len() > 0 && s[0].priority >= prio {
        lemma_insert_pos(s.drop_first(), prio);
        assert forall|i: int| 0 <= i < insert_pos(s, prio) implies (#[trigger] s[i]).priority >= prio by {
            if i > 0 {
                assert(s[i] == s.drop_first()[i - 1]);
            }
        }
    }
}

/// Adding keeps a list sorted by priority and free of repeated names.
pub proof fn lemma_add_sorted_keeps(s: Seq<ProfileView>, p: ProfileView)
    requires
        sorted_by_priority(s),
        unique_names(s),
    ensures
        sorted_by_priority(add_sorted(s, p)),
        unique_names(add_sorted(s, p)),
        has_name(add_sorted(s, p), p.name),
        forall|n: Seq<char>| has_name(s, n) ==> has_name(add_sorted(s, p), n),
{
    if !has_name(s, p.name) {
        let k = insert_pos(s, p.priority);
        lemma_insert_pos(s, p.priority);
        let t = s.insert(k, p);
        assert forall|i: int, j: int| 0 <= i < j < t.len() implies (#[trigger] t[i]).priority >= (#[trigger] t[j]).priority by {
            if j < k {
                assert(t[i] == s[i] && t[j] == s[j]);
            } else if j == k {
                assert(t[i] == s[i]);
            } else if i == k {
                assert(t[j] == s[j - 1]);
                assert(s[k].priority < p.priority);
                assert(s[k].priority >= s[j - 1].priority);
            } else if i < k {
                assert(t[i] == s[i] && t[j] == s[j - 1]);
            } else {
                assert(t[i] == s[i - 1] && t[j] == s[j - 1]);
            }
        }
        assert forall|i: int, j: int| 0 <= i < j < t.len() implies (#[trigger] t[i]).name != (#[trigger] t[j]).name by {
            if j < k {
                assert(t[i] == s[i] && t[j] == s[j]);
            } else if j == k {
                assert(t[i] == s[i]);
            } else if i == k {
                assert(t[j] == s[j - 1]);
            } else if i < k {
                assert(t[i] == s[i] && t[j] == s[j - 1]);
            } else {
                assert(t[i] == s[i - 1] && t[j] == s[j - 1]);
            }
        }
        assert(t[k] == p);
        assert forall|n: Seq<char>| has_name(s, n) implies has_name(t, n) by {
            let i = choose|i: int| 0 <= i < s.len() && (#[trigger] s[i]).name == n;
            if i < k {
                assert(t[i] == s[i]);
            } else {
                assert(t[i + 1] == s[i]);
            }
        }
    }
}

/// Adding a profile a second time changes nothing.
pub proof fn lemma_add_sorted_twice(s: Seq<ProfileView>, p: ProfileView)
    ensures
        add_sorted(add_sorted(s, p), p) == add_sorted(s, p),
{
    if !has_name(s, p.name) {
        let k = insert_pos(s, p.priority);
        lemma_insert_pos(s, p.priority);
        assert(s.insert(k, p)[k] == p);
    }
}

/// Adding many keeps a list sorted by priority and free of repeated names.
pub proof fn lemma_add_all_keeps(s: Seq<ProfileView>, ps: Seq<ProfileView>)
    requires
        sorted_by_priority(s),
        unique_names(s),
    ensures
        sorted_by_priority(add_all(s, ps)),
        unique_names(add_all(s, ps)),
    decreases ps.len(),
{
    if ps.len() > 0 {
        lemma_add_all_keeps(s, ps.drop_last());
        lemma_add_sorted_keeps(add_all(s, ps.drop_last()), ps.last());
    }
}

/// Each profile added is then present by name.
pub proof fn lemma_add_all_has(s: Seq<ProfileView>, ps: Seq<ProfileView>, i: int)
    requires
        sorted_by_priority(s),
        unique_names(s),
        0 <= i < ps.len(),
    ensures
        has_name(add_all(s, ps), ps[i].name),
    decreases ps.len(),
{
    lemma_add_all_keeps(s, ps.drop_last());
    lemma_add_sorted_keeps(add_all(s, ps.drop_last()), ps.last());
    if i < ps.len() - 1 {
        lemma_add_all_has(s, ps.drop_last(), i);
        assert(ps.drop_last()[i] == ps[i]);
    }
}

/// Every profile of `add_all(s, ps)` comes from `s` or from `ps`.
pub proof fn lemma_add_all_members(s: Seq<ProfileView>, ps: Seq<ProfileView>)
    ensures
        forall|x: ProfileView| #[trigger] add_all(s, ps).contains(x) ==> s.contains(x) || ps.contains(x),
    decreases ps.len(),
{
    if ps.len() > 0 {
        lemma_add_all_members(s, ps.drop_last());
        let prev = add_all(s, ps.drop_last());
        let p = ps.last();
        assert forall|x: ProfileView| #[trigger] add_all(s, ps).contains(x) implies s.contains(x) || ps.contains(x) by {
            if !has_name(prev, p.name) {
                let k = insert_pos(prev, p.priority);
                lemma_insert_pos(prev, p.priority);
                let t = prev.insert(k, p);
                let i = choose|i: int| 0 <= i < t.len() && t[i] == x;
                if i < k {
                    assert(prev[i] == x);
                } else if i > k {
                    assert(prev[i - 1] == x);
                } else {
                    assert(ps[ps.len() - 1] == x);
                }
            }
            if prev.contains(x) && !s.contains(x) {
                let i = choose|i: int| 0 <= i < ps.drop_last().len() && ps.drop_last()[i] == x;
                assert(ps[i] == x);
            }
        }
    }
}

fn has_name_exec(profiles: &Vec<Arc<Profile>>, name: &String) -> (r: bool)
    ensures
        r == has_name(shared_views(profiles@), name@),
{
    let ghost s = shared_views(profiles@);
    let mut i: usize = 0;
    while i < profiles.len()
        invariant
            i <= profiles.len(),
            s == shared_views(profiles@),
            forall|j: int| 0 <= j < i ==> (#[trigger] s[j]).name != name@,
        decreases profiles.len() - i,
    {
        let p: &Profile = &profiles[i];
        assert(s[i as int] == p@);
        if p.name == *name {
            return true;
        }
        i = i + 1;
    }
    false
}

fn insert_pos_exec(profiles: &Vec<Arc<Profile>>, priority: i32) -> (r: usize)
    ensures
        r as int == insert_pos(shared_views(profiles@), priority as int),
{
    let ghost s = shared_views(profiles@);
    let mut i: usize = 0;
    assert(s.subrange(0, s.len() as int) =~= s);
    while i < profiles.len()
        invariant
            i <= profiles.len(),
            s == shared_views(profiles@),
            insert_pos(s, priority as int) == i + insert_pos(s.subrange(i as int, s.len() as int), priority as int),
        decreases profiles.len() - i,
    {
        let p: &Profile = &profiles[i];
        let ghost rest = s.subrange(i as int, s.len() as int);
        assert(rest[0] == p@);
        assert(rest.drop_first() =~= s.subrange(i as int + 1, s.len() as int));
        if p.priority < priority {
            return i;
        }
        i = i + 1;
    }
    i
}

/// Adds a shared profile to a device's list at its place by priority, unless
/// one of that name is there already.
pub(crate) fn add_profile_sorted(profiles: &mut Vec<Arc<Profile>>, new_profile: &Arc<Profile>)
    ensures
        shared_views(final(profiles)@) == add_sorted(shared_views(old(profiles)@), new_profile@),
{
    let p: &Profile = &new_profile;
    if has_name_exec(profiles, &p.name) {
        return;
    }
    let pos = insert_pos_exec(profiles, p.priority);
    proof {
        lemma_insert_pos(shared_views(profiles@), p.priority as int);
    }
    let ghost before = shared_views(profiles@);
    profiles.insert(pos, share(new_profile));
    assert(shared_views(profiles@) =~= before.insert(pos as int, new_profile@));
}

fn has_name_owned(profiles: &Vec<Profile>, name: &String) -> (r: bool)
    ensures
        r == has_name(profile_views(profiles@), name@),
{
    let ghost s = profile_views(profiles@);
    let mut i: usize = 0;
    while i < profiles.len()
        invariant
            i <= profiles.len(),
            s == profile_views(profiles@),
            forall|j: int| 0 <= j < i ==> (#[trigger] s[j]).name != name@,
        decreases profiles.len() - i,
    {
        assert(s[i as int] == profiles[i as int]@);
        if profiles[i].name == *name {
            return true;
        }
        i = i + 1;
    }
    false
}

fn insert_pos_owned(profiles: &Vec<Profile>, priority: i32) -> (r: usize)
    ensures
        r as int == insert_pos(profile_views(profiles@), priority as int),
{
    let ghost s = profile_views(profiles@);
    let mut i: usize = 0;
    assert(s.subrange(0, s.len() as int) =~= s);
    while i < profiles.len()
        invariant
            i <= profiles.len(),
            s == profile_views(profiles@),
            insert_pos(s, priority as int) == i + insert_pos(s.subrange(i as int, s.len() as int), priority as int),
        decreases profiles.len() - i,
    {
        let ghost rest = s.subrange(i as int, s.len() as int);
        assert(rest[0] == profiles[i as int]@);
        assert(rest.drop_first() =~= s.subrange(i as int + 1, s.len() as int));
        if profiles[i].priority < priority {
            return i;
        }
        i = i + 1;
    }
    i
}

/// Adds a profile to a corpus at its place by priority, unless one of that
/// name is there already.
pub(crate) fn insert_profile_sorted(profiles: &mut Vec<Profile>, new_profile: Profile)
    ensures
        profile_views(final(profiles)@) == add_sorted(profile_views(old(profiles)@), new_profile@),
{
    if has_name_owned(profiles, &new_profile.name) {
        return;
    }
    let pos = insert_pos_owned(profiles, new_profile.priority);
    proof {
        lemma_insert_pos(profile_views(profiles@), new_profile.priority as int);
    }
    let ghost before = profile_views(profiles@);
    let ghost v = new_profile@;
    profiles.insert(pos, new_profile);
    assert(profile_views(profiles@) =~= before.insert(pos as int, v));
}

} // verus!
