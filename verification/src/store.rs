//! The profile store for one tool family: an ordered table of profile
//! records plus the family's singleton common-config layer. All lifecycle
//! transitions (create, update, delete, reorder, select) are specified
//! exactly; the applied flag obeys the at-most-one-applied law after every
//! select transition.

use vstd::prelude::*;
use vstd::multiset::Multiset;
use crate::errors::CfgError;
use crate::json::json_min;
use crate::json::json_min_str;
use crate::json::json_of;
use crate::json::json_parse;
use crate::json::entries_view;
use crate::json::lemma_obj_view;
use crate::json::JsonData;
use crate::json::JsonVal;
use crate::strutil::all_ws;
use crate::strutil::str_eq;
use crate::toml_merge::toml_doc;
use crate::toml_merge::validate_common_config;

verus! {

broadcast use vstd::seq_lib::group_to_multiset_ensures;

/// One stored profile record.
#[derive(Debug, PartialEq)]
pub struct Profile {
    pub id: String,
    pub name: String,
    pub category: String,
    pub settings_config: String,
    pub source_provider_id: Option<String>,
    pub website_url: Option<String>,
    pub notes: Option<String>,
    pub icon: Option<String>,
    pub icon_color: Option<String>,
    pub sort_index: Option<i64>,
    pub is_applied: bool,
    pub created_at: String,
    pub updated_at: String,
}

/// The caller-supplied fields of a new profile.
#[derive(Debug, PartialEq)]
pub struct ProfileInput {
    pub id: String,
    pub name: String,
    pub category: String,
    pub settings_config: String,
    pub source_provider_id: Option<String>,
    pub website_url: Option<String>,
    pub notes: Option<String>,
    pub icon: Option<String>,
    pub icon_color: Option<String>,
    pub sort_index: Option<i64>,
}

/// The family's singleton common-config record.
#[derive(Debug, PartialEq)]
pub struct CommonConfig {
    pub config: String,
    pub updated_at: String,
}

/// The in-memory state of one tool family.
#[derive(Debug, PartialEq)]
pub struct FamilyStore {
    pub profiles: Vec<Profile>,
    pub common_config: Option<CommonConfig>,
}

/// Profile ids are pairwise distinct.
pub open spec fn ids_distinct(ps: Seq<Profile>) -> bool {
    forall|i: int, j: int|
        #![trigger ps[i].id, ps[j].id]
        0 <= i < j < ps.len() ==> ps[i].id@ != ps[j].id@
}

/// Some record carries the id.
pub open spec fn has_id(ps: Seq<Profile>, id: Seq<char>) -> bool {
    exists|i: int| 0 <= i < ps.len() && (#[trigger] ps[i]).id@ == id
}

/// At most one record has the applied flag set.
pub open spec fn at_most_one_applied(ps: Seq<Profile>) -> bool {
    forall|i: int, j: int|
        #![trigger ps[i].is_applied, ps[j].is_applied]
        0 <= i < j < ps.len() ==> !(ps[i].is_applied && ps[j].is_applied)
}

/// The position of the last occurrence of `id` in an id list, or a
/// negative value when it does not occur.
pub open spec fn last_pos_of(ids: Seq<String>, id: Seq<char>) -> int
    decreases ids.len(),
{
    if ids.len() == 0 {
        -1
    } else if ids.last()@ == id {
        ids.len() - 1
    } else {
        last_pos_of(ids.drop_last(), id)
    }
}

/// The fields a flag or index transition never touches.
pub open spec fn same_record_core(po: Profile, pn: Profile) -> bool {
    &&& pn.id == po.id
    &&& pn.name == po.name
    &&& pn.category == po.category
    &&& pn.settings_config == po.settings_config
    &&& pn.source_provider_id == po.source_provider_id
    &&& pn.website_url == po.website_url
    &&& pn.notes == po.notes
    &&& pn.icon == po.icon
    &&& pn.icon_color == po.icon_color
    &&& pn.created_at == po.created_at
}

/// What one reorder pass leaves of a record: listed ids get their position
/// as sort index and a fresh update time, unlisted records are untouched.
pub open spec fn reorder_patched(po: Profile, pn: Profile, ids: Seq<String>, now: Seq<char>) -> bool {
    if last_pos_of(ids, po.id@) >= 0 {
        &&& same_record_core(po, pn)
        &&& pn.is_applied == po.is_applied
        &&& pn.sort_index == Option::Some(last_pos_of(ids, po.id@) as i64)
        &&& pn.updated_at@ == now
    } else {
        pn == po
    }
}

/// Like `reorder_patched`, leaving the update time unconstrained.
pub open spec fn reorder_patched_core(po: Profile, pn: Profile, ids: Seq<String>) -> bool {
    if last_pos_of(ids, po.id@) >= 0 {
        &&& same_record_core(po, pn)
        &&& pn.is_applied == po.is_applied
        &&& pn.sort_index == Option::Some(last_pos_of(ids, po.id@) as i64)
    } else {
        pn == po
    }
}

/// The ordering key: a missing sort index counts as zero.
pub open spec fn sort_key(p: Profile) -> int {
    match p.sort_index {
        Option::Some(v) => v as int,
        Option::None => 0,
    }
}

/// Records ordered by ascending sort key.
pub open spec fn sorted_by_sort_index(ps: Seq<Profile>) -> bool {
    forall|i: int, j: int| 0 <= i <= j < ps.len() ==> sort_key(#[trigger] ps[i]) <= sort_key(
        #[trigger] ps[j],
    )
}

/// A structural copy of an optional string.
pub fn clone_opt_string(o: &Option<String>) -> (r: Option<String>)
    ensures
        r == *o,
{
    match o {
        Option::Some(s) => Option::Some(s.clone()),
        Option::None => Option::None,
    }
}

/// A structural copy of a profile record.
pub fn clone_profile(p: &Profile) -> (r: Profile)
    ensures
        r == *p,
{
    Profile {
        id: p.id.clone(),
        name: p.name.clone(),
        category: p.category.clone(),
        settings_config: p.settings_config.clone(),
        source_provider_id: clone_opt_string(&p.source_provider_id),
        website_url: clone_opt_string(&p.website_url),
        notes: clone_opt_string(&p.notes),
        icon: clone_opt_string(&p.icon),
        icon_color: clone_opt_string(&p.icon_color),
        sort_index: p.sort_index,
        is_applied: p.is_applied,
        created_at: p.created_at.clone(),
        updated_at: p.updated_at.clone(),
    }
}

/// Finds the first record with the given id.
pub fn find_profile_index(ps: &Vec<Profile>, id: &str) -> (r: Option<usize>)
    ensures
        r is Some <==> has_id(ps@, id@),
        r matches Some(i) ==> (i as int) < ps@.len() && ps@[i as int].id@ == id@ && forall|j: int|
            0 <= j < i ==> (#[trigger] ps@[j]).id@ != id@,
{
    let mut i: usize = 0;
    while i < ps.len()
        invariant
            i <= ps@.len(),
            forall|j: int| 0 <= j < i ==> (#[trigger] ps@[j]).id@ != id@,
        decreases ps@.len() - i,
    {
        if str_eq(ps[i].id.as_str(), id) {
            return Option::Some(i);
        }
        i += 1;
    }
    Option::None
}

/// Sorts records by ascending sort key (selection of the least remaining
/// key); the result holds exactly the input's records.
#[verifier::loop_isolation(false)]
pub fn sort_profiles(input: Vec<Profile>) -> (r: Vec<Profile>)
    ensures
        r@.to_multiset() == input@.to_multiset(),
        sorted_by_sort_index(r@),
{
    let mut rest = input;
    let ghost orig = rest@.to_multiset();
    let mut out: Vec<Profile> = Vec::new();
    proof {
        assert(out@.to_multiset().add(rest@.to_multiset()) =~= orig);
    }
    while rest.len() > 0
        invariant
            out@.to_multiset().add(rest@.to_multiset()) == orig,
            sorted_by_sort_index(out@),
            forall|i: int, j: int|
                0 <= i < out@.len() && 0 <= j < rest@.len() ==> sort_key(#[trigger] out@[i])
                    <= sort_key(#[trigger] rest@[j]),
        decreases rest@.len(),
    {
        let mut min: usize = 0;
        let mut k: usize = 1;
        while k < rest.len()
            invariant
                min < k <= rest@.len() || (k <= rest@.len() && min == 0),
                min < rest@.len(),
                forall|j: int| 0 <= j < k ==> sort_key(rest@[min as int]) <= sort_key(
                    #[trigger] rest@[j],
                ),
            decreases rest@.len() - k,
        {
            let better = match (rest[k].sort_index, rest[min].sort_index) {
                (Option::Some(a), Option::Some(b)) => a < b,
                (Option::Some(a), Option::None) => a < 0,
                (Option::None, Option::Some(b)) => 0 < b,
                (Option::None, Option::None) => false,
            };
            if better {
                min = k;
            }
            k += 1;
        }
        let ghost rest_before = rest@;
        let picked = rest.remove(min);
        proof {
            assert(rest@.to_multiset() =~= rest_before.to_multiset().remove(picked));
            assert(forall|j: int|
                0 <= j < rest@.len() ==> sort_key(#[trigger] rest@[j]) >= sort_key(picked)) by {
                assert(forall|j: int|
                    0 <= j < rest@.len() ==> rest@[j] == if j < min {
                        rest_before[j]
                    } else {
                        rest_before[j + 1]
                    });
            }
        }
        let ghost out_before = out@;
        out.push(picked);
        proof {
            assert(out@.to_multiset() =~= out_before.to_multiset().insert(picked));
            assert(rest_before.to_multiset().count(picked) > 0);
            assert(out@.to_multiset().add(rest@.to_multiset()) =~= orig);
            assert(forall|i: int|
                0 <= i < out@.len() ==> sort_key(#[trigger] out@[i]) <= sort_key(picked)) by {
                assert(forall|i: int| 0 <= i < out_before.len() ==> out@[i] == out_before[i]);
            }
        }
    }
    proof {
        assert(rest@.to_multiset() =~= Multiset::<Profile>::empty());
        assert(out@.to_multiset() =~= orig);
    }
    out
}

/// Relies on `chrono::Local::now` and `to_rfc3339`: a timestamp of the
/// current local time; the result depends on the clock, so nothing is
/// promised of it.
#[verifier::external_body]
pub fn now_rfc3339() -> (r: String) {
    chrono::Local::now().to_rfc3339()
}

impl FamilyStore {
    /// An empty family: no profiles, no common layer.
    pub fn new() -> (r: FamilyStore)
        ensures
            r.profiles@.len() == 0,
            r.common_config is None,
    {
        FamilyStore { profiles: Vec::new(), common_config: Option::None }
    }

    /// All profiles of the family ordered by ascending sort index (missing
    /// index counts as zero); the store is left unchanged.
    pub fn list_codex_providers(&self) -> (r: Vec<Profile>)
        ensures
            r@.to_multiset() == self.profiles@.to_multiset(),
            sorted_by_sort_index(r@),
    {
        let mut copy: Vec<Profile> = Vec::new();
        let mut i: usize = 0;
        while i < self.profiles.len()
            invariant
                i <= self.profiles@.len(),
                copy@ =~= self.profiles@.take(i as int),
            decreases self.profiles@.len() - i,
        {
            let c = clone_profile(&self.profiles[i]);
            copy.push(c);
            i += 1;
            proof {
                assert(copy@ =~= self.profiles@.take(i as int));
            }
        }
        proof {
            assert(self.profiles@.take(self.profiles@.len() as int) =~= self.profiles@);
        }
        sort_profiles(copy)
    }

    /// Creates a profile: fails with `DuplicateId` when the id is taken;
    /// otherwise the record is appended with the applied flag forced off
    /// and both timestamps stamped `now`.
    pub fn create_codex_provider_at(&mut self, provider: ProfileInput, now: String) -> (r: Result<
        Profile,
        CfgError,
    >)
        ensures
            has_id(old(self).profiles@, provider.id@) ==> (r matches Err(e) && e
                == CfgError::DuplicateId && *final(self) == *old(self)),
            !has_id(old(self).profiles@, provider.id@) ==> (r matches Ok(p) && {
                &&& p.id == provider.id
                &&& p.name == provider.name
                &&& p.category == provider.category
                &&& p.settings_config == provider.settings_config
                &&& p.source_provider_id == provider.source_provider_id
                &&& p.website_url == provider.website_url
                &&& p.notes == provider.notes
                &&& p.icon == provider.icon
                &&& p.icon_color == provider.icon_color
                &&& p.sort_index == provider.sort_index
                &&& p.is_applied == false
                &&& p.created_at == now
                &&& p.updated_at == now
                &&& final(self).profiles@ == old(self).profiles@.push(p)
                &&& final(self).common_config == old(self).common_config
            }),
            ids_distinct(old(self).profiles@) ==> ids_distinct(final(self).profiles@),
            at_most_one_applied(old(self).profiles@) ==> at_most_one_applied(
                final(self).profiles@,
            ),
    {
        if let Option::Some(_) = find_profile_index(&self.profiles, provider.id.as_str()) {
            return Result::Err(CfgError::DuplicateId);
        }
        let record = Profile {
            id: provider.id,
            name: provider.name,
            category: provider.category,
            settings_config: provider.settings_config,
            source_provider_id: provider.source_provider_id,
            website_url: provider.website_url,
            notes: provider.notes,
            icon: provider.icon,
            icon_color: provider.icon_color,
            sort_index: provider.sort_index,
            is_applied: false,
            created_at: now.clone(),
            updated_at: now,
        };
        let returned = clone_profile(&record);
        self.profiles.push(record);
        proof {
            let ps = final(self).profiles@;
            assert(forall|i: int|
                0 <= i < ps.len() - 1 ==> ps[i] == old(self).profiles@[i]);
        }
        Result::Ok(returned)
    }

    /// Replaces a record wholesale under the same id (delete then
    /// recreate): fails with `NotFound` when the id is absent; the original
    /// creation time is kept when the caller's copy has a blank one, and
    /// the update time is stamped `now`.
    pub fn update_codex_provider_at(&mut self, provider: Profile, now: String) -> (r: Result<
        Profile,
        CfgError,
    >)
        ensures
            !has_id(old(self).profiles@, provider.id@) ==> (r matches Err(e) && e
                == CfgError::NotFound && *final(self) == *old(self)),
            has_id(old(self).profiles@, provider.id@) ==> (r matches Ok(p) && exists|i: int|
                {
                    &&& 0 <= i < old(self).profiles@.len()
                    &&& old(self).profiles@[i].id@ == provider.id@
                    &&& p.id == provider.id
                    &&& p.name == provider.name
                    &&& p.category == provider.category
                    &&& p.settings_config == provider.settings_config
                    &&& p.source_provider_id == provider.source_provider_id
                    &&& p.website_url == provider.website_url
                    &&& p.notes == provider.notes
                    &&& p.icon == provider.icon
                    &&& p.icon_color == provider.icon_color
                    &&& p.sort_index == provider.sort_index
                    &&& p.is_applied == provider.is_applied
                    &&& p.created_at == if provider.created_at@.len() > 0 {
                        provider.created_at
                    } else {
                        old(self).profiles@[i].created_at
                    }
                    &&& p.updated_at == now
                    &&& final(self).profiles@ == old(self).profiles@.remove(i).push(p)
                    &&& final(self).common_config == old(self).common_config
                }),
    {
        let idx = match find_profile_index(&self.profiles, provider.id.as_str()) {
            Option::Some(i) => i,
            Option::None => {
                return Result::Err(CfgError::NotFound);
            },
        };
        let existing = self.profiles.remove(idx);
        let created_at = if provider.created_at.as_str().unicode_len() > 0 {
            provider.created_at
        } else {
            existing.created_at
        };
        let record = Profile {
            id: provider.id,
            name: provider.name,
            category: provider.category,
            settings_config: provider.settings_config,
            source_provider_id: provider.source_provider_id,
            website_url: provider.website_url,
            notes: provider.notes,
            icon: provider.icon,
            icon_color: provider.icon_color,
            sort_index: provider.sort_index,
            is_applied: provider.is_applied,
            created_at,
            updated_at: now,
        };
        let returned = clone_profile(&record);
        self.profiles.push(record);
        Result::Ok(returned)
    }

    /// Removes the record with the given id; an absent id is a silent
    /// no-op.
    pub fn delete_codex_provider(&mut self, id: &str)
        ensures
            !has_id(old(self).profiles@, id@) ==> *final(self) == *old(self),
            has_id(old(self).profiles@, id@) ==> exists|i: int|
                {
                    &&& 0 <= i < old(self).profiles@.len()
                    &&& old(self).profiles@[i].id@ == id@
                    &&& final(self).profiles@ == old(self).profiles@.remove(i)
                    &&& final(self).common_config == old(self).common_config
                },
            ids_distinct(old(self).profiles@) ==> ids_distinct(final(self).profiles@),
            at_most_one_applied(old(self).profiles@) ==> at_most_one_applied(
                final(self).profiles@,
            ),
    {
        if let Option::Some(i) = find_profile_index(&self.profiles, id) {
            self.profiles.remove(i);
            proof {
                let after = final(self).profiles@;
                let before = old(self).profiles@;
                assert(forall|a: int|
                    0 <= a < after.len() ==> #[trigger] after[a] == if a < i {
                        before[a]
                    } else {
                        before[a + 1]
                    });
            }
        }
    }

    /// Assigns each listed id its list position as sort index, stamping the
    /// update time; ids not in the store are skipped, records not listed
    /// are untouched, and a repeated id gets its last position.
    #[verifier::loop_isolation(false)]
    pub fn reorder_codex_providers_at(&mut self, ids: &Vec<String>, now: &str)
        requires
            ids_distinct(old(self).profiles@),
            ids@.len() <= 0x7fffffffffffffff,
        ensures
            final(self).profiles@.len() == old(self).profiles@.len(),
            forall|i: int|
                0 <= i < old(self).profiles@.len() ==> reorder_patched(
                    old(self).profiles@[i],
                    #[trigger] final(self).profiles@[i],
                    ids@,
                    now@,
                ),
            final(self).common_config == old(self).common_config,
            ids_distinct(final(self).profiles@),
            at_most_one_applied(old(self).profiles@) ==> at_most_one_applied(
                final(self).profiles@,
            ),
    {
        let ghost orig = old(self).profiles@;
        let mut idx: usize = 0;
        proof {
            assert(forall|i: int|
                0 <= i < orig.len() ==> reorder_patched(
                    orig[i],
                    #[trigger] self.profiles@[i],
                    ids@.take(0),
                    now@,
                ));
        }
        while idx < ids.len()
            invariant
                idx <= ids@.len(),
                self.profiles@.len() == orig.len(),
                self.common_config == old(self).common_config,
                forall|i: int|
                    0 <= i < orig.len() ==> reorder_patched(
                        orig[i],
                        #[trigger] self.profiles@[i],
                        ids@.take(idx as int),
                        now@,
                    ),
            decreases ids@.len() - idx,
        {
            let ghost before = self.profiles@;
            let target = &ids[idx];
            if let Option::Some(f) = find_profile_index(&self.profiles, target.as_str()) {
                let mut p = self.profiles.remove(f);
                p.sort_index = Option::Some(idx as i64);
                p.updated_at = now.to_owned();
                self.profiles.insert(f, p);
                proof {
                    assert(self.profiles@ =~= before.update(f as int, self.profiles@[f as int]));
                }
            }
            idx += 1;
            proof {
                assert(ids@.take(idx as int).drop_last() =~= ids@.take(idx as int - 1));
                assert(ids@.take(idx as int).last() == ids@[idx as int - 1]);
                assert forall|i: int| 0 <= i < orig.len() implies reorder_patched(
                    orig[i],
                    #[trigger] self.profiles@[i],
                    ids@.take(idx as int),
                    now@,
                ) by {
                    assert(reorder_patched(orig[i], before[i], ids@.take(idx as int - 1), now@));
                    if orig[i].id@ != ids@[idx - 1]@ {
                        assert(last_pos_of(ids@.take(idx as int), orig[i].id@) == last_pos_of(
                            ids@.take(idx as int - 1),
                            orig[i].id@,
                        ));
                    }
                }
            }
        }
        proof {
            assert(ids@.take(ids@.len() as int) =~= ids@);
        }
    }

    /// Marks the id's record as the family's applied profile and clears the
    /// flag on every other record, stamping the update time everywhere.
    /// Afterwards at most one profile is applied.
    #[verifier::loop_isolation(false)]
    pub fn select_codex_provider_at(&mut self, id: &str, now: &str)
        ensures
            final(self).profiles@.len() == old(self).profiles@.len(),
            forall|i: int|
                0 <= i < old(self).profiles@.len() ==> {
                    let po = old(self).profiles@[i];
                    let pn = #[trigger] final(self).profiles@[i];
                    &&& same_record_core(po, pn)
                    &&& pn.sort_index == po.sort_index
                    &&& pn.updated_at@ == now@
                    &&& pn.is_applied == (po.id@ == id@)
                },
            final(self).common_config == old(self).common_config,
            ids_distinct(old(self).profiles@) ==> at_most_one_applied(final(self).profiles@),
            ids_distinct(old(self).profiles@) ==> ids_distinct(final(self).profiles@),
    {
        let ghost orig = old(self).profiles@;
        let mut i: usize = 0;
        while i < self.profiles.len()
            invariant
                i <= orig.len(),
                self.profiles@.len() == orig.len(),
                self.common_config == old(self).common_config,
                forall|j: int| i <= j < orig.len() ==> #[trigger] self.profiles@[j] == orig[j],
                forall|j: int|
                    0 <= j < i ==> {
                        let po = orig[j];
                        let pn = #[trigger] self.profiles@[j];
                        &&& same_record_core(po, pn)
                        &&& pn.sort_index == po.sort_index
                        &&& pn.updated_at@ == now@
                        &&& pn.is_applied == (po.id@ == id@)
                    },
            decreases orig.len() - i,
        {
            let ghost before = self.profiles@;
            let mut p = self.profiles.remove(i);
            let matched = str_eq(p.id.as_str(), id);
            p.is_applied = matched;
            p.updated_at = now.to_owned();
            self.profiles.insert(i, p);
            proof {
                assert(self.profiles@ =~= before.update(i as int, self.profiles@[i as int]));
            }
            i += 1;
        }
        proof {
            if ids_distinct(orig) {
                assert forall|a: int, b: int|
                    0 <= a < b < final(self).profiles@.len() implies !(
                final(self).profiles@[a].is_applied && final(self).profiles@[b].is_applied) by {
                    assert(final(self).profiles@[a].is_applied == (orig[a].id@ == id@));
                    assert(final(self).profiles@[b].is_applied == (orig[b].id@ == id@));
                    assert(orig[a].id@ != orig[b].id@);
                }
            }
        }
    }

    /// The family's common-config record, when one is stored.
    pub fn get_codex_common_config(&self) -> (r: Option<CommonConfig>)
        ensures
            r is Some <==> self.common_config is Some,
            r matches Some(c) ==> c.config == self.common_config.unwrap().config && c.updated_at
                == self.common_config.unwrap().updated_at,
    {
        match &self.common_config {
            Option::Some(c) => Option::Some(
                CommonConfig { config: c.config.clone(), updated_at: c.updated_at.clone() },
            ),
            Option::None => Option::None,
        }
    }

    /// Replaces the common-config layer wholesale: blank text is accepted
    /// as an empty layer, anything else must parse as TOML, else
    /// `ParseError` and no change.
    pub fn save_codex_common_config_at(&mut self, config: String, now: String) -> (r: Result<
        (),
        CfgError,
    >)
        ensures
            (!all_ws(config@) && toml_doc(config@) is None) ==> (r matches Err(e) && e matches
                CfgError::ParseError(_) && *final(self) == *old(self)),
            (all_ws(config@) || toml_doc(config@) is Some) ==> ({
                &&& r is Ok
                &&& final(self).common_config matches Some(c) && c.config == config
                    && c.updated_at == now
                &&& final(self).profiles == old(self).profiles
            }),
    {
        if let Result::Err(e) = validate_common_config(config.as_str()) {
            return Result::Err(e);
        }
        self.common_config = Option::Some(CommonConfig { config, updated_at: now });
        Result::Ok(())
    }

    /// First-run import: when the family's table is empty and a legacy
    /// auth file exists on disk, one synthetic profile is created from it
    /// with the fixed id `default-config`, sort index zero and the applied
    /// flag set. Returns whether an import happened.
    pub fn init_codex_provider_from_settings_at(
        &mut self,
        legacy_auth: Option<String>,
        legacy_config: Option<String>,
        now: String,
    ) -> (r: Result<bool, CfgError>)
        ensures
            old(self).profiles@.len() > 0 ==> (r matches Ok(b) && b == false && *final(self)
                == *old(self)),
            (old(self).profiles@.len() == 0 && legacy_auth is None) ==> (r matches Ok(b) && b
                == false && *final(self) == *old(self)),
            (old(self).profiles@.len() == 0 && legacy_auth is Some) ==> {
                let a = legacy_auth.unwrap();
                &&& json_of(a@) is None ==> (r matches Err(e) && e matches CfgError::ParseError(_)
                    && *final(self) == *old(self))
                &&& json_of(a@) is Some ==> (r matches Ok(b) && b == true && {
                    let cfg = match legacy_config {
                        Option::Some(c) => c@,
                        Option::None => Seq::<char>::empty(),
                    };
                    let doc = JsonData::Obj(
                        seq![
                            ("auth"@, json_of(a@).unwrap()),
                            ("config"@, JsonData::Str(cfg)),
                        ],
                    );
                    &&& final(self).profiles@.len() == 1
                    &&& final(self).profiles@[0].id@ == "default-config"@
                    &&& final(self).profiles@[0].is_applied == true
                    &&& final(self).profiles@[0].sort_index == Option::Some(0i64)
                    &&& final(self).profiles@[0].settings_config@ == json_min(doc)
                    &&& final(self).profiles@[0].created_at == now
                    &&& final(self).profiles@[0].updated_at == now
                    &&& final(self).common_config == old(self).common_config
                })
            },
    {
        if self.profiles.len() > 0 {
            return Result::Ok(false);
        }
        let auth_text = match legacy_auth {
            Option::Some(t) => t,
            Option::None => {
                return Result::Ok(false);
            },
        };
        let auth_val = match json_parse(auth_text.as_str()) {
            Result::Ok(v) => v,
            Result::Err(m) => {
                return Result::Err(CfgError::ParseError(m));
            },
        };
        let config_text = match legacy_config {
            Option::Some(c) => c,
            Option::None => String::new(),
        };
        let ghost cfg_view = config_text@;
        let mut payload: Vec<(String, JsonVal)> = Vec::new();
        payload.push(("auth".to_owned(), auth_val));
        payload.push(("config".to_owned(), JsonVal::Str(config_text)));
        proof {
            lemma_obj_view(payload);
            assert(entries_view(payload@) =~~= seq![
                ("auth"@, json_of(auth_text@).unwrap()),
                ("config"@, JsonData::Str(cfg_view)),
            ]);
        }
        let settings = JsonVal::Obj(payload);
        proof {
            assert(settings@ =~~= JsonData::Obj(
                seq![("auth"@, json_of(auth_text@).unwrap()), ("config"@, JsonData::Str(cfg_view))],
            ));
        }
        let settings_config = json_min_str(&settings);
        let record = Profile {
            id: "default-config".to_owned(),
            name: "Default Config".to_owned(),
            category: String::new(),
            settings_config,
            source_provider_id: Option::None,
            website_url: Option::None,
            notes: Option::Some("Imported from existing config files".to_owned()),
            icon: Option::None,
            icon_color: Option::None,
            sort_index: Option::Some(0i64),
            is_applied: true,
            created_at: now.clone(),
            updated_at: now,
        };
        self.profiles.push(record);
        Result::Ok(true)
    }

    /// Creates a profile stamped with the current time; see
    /// `create_codex_provider_at` for the exact transition.
    pub fn create_codex_provider(&mut self, provider: ProfileInput) -> (r: Result<
        Profile,
        CfgError,
    >)
        ensures
            has_id(old(self).profiles@, provider.id@) ==> (r matches Err(e) && e
                == CfgError::DuplicateId && *final(self) == *old(self)),
            !has_id(old(self).profiles@, provider.id@) ==> (r matches Ok(p) && {
                &&& p.id == provider.id
                &&& p.name == provider.name
                &&& p.category == provider.category
                &&& p.settings_config == provider.settings_config
                &&& p.source_provider_id == provider.source_provider_id
                &&& p.website_url == provider.website_url
                &&& p.notes == provider.notes
                &&& p.icon == provider.icon
                &&& p.icon_color == provider.icon_color
                &&& p.sort_index == provider.sort_index
                &&& p.is_applied == false
                &&& p.created_at == p.updated_at
                &&& final(self).profiles@ == old(self).profiles@.push(p)
                &&& final(self).common_config == old(self).common_config
            }),
            ids_distinct(old(self).profiles@) ==> ids_distinct(final(self).profiles@),
            at_most_one_applied(old(self).profiles@) ==> at_most_one_applied(
                final(self).profiles@,
            ),
    {
        let now = now_rfc3339();
        self.create_codex_provider_at(provider, now)
    }

    /// Marks a profile as selected, stamped with the current time; every
    /// record gets the same fresh update time; see
    /// `select_codex_provider_at` for the exact transition.
    pub fn select_codex_provider(&mut self, id: &str)
        ensures
            final(self).profiles@.len() == old(self).profiles@.len(),
            forall|i: int|
                0 <= i < old(self).profiles@.len() ==> {
                    let po = old(self).profiles@[i];
                    let pn = #[trigger] final(self).profiles@[i];
                    &&& same_record_core(po, pn)
                    &&& pn.sort_index == po.sort_index
                    &&& pn.is_applied == (po.id@ == id@)
                },
            forall|i: int, j: int|
                (0 <= i < final(self).profiles@.len() && 0 <= j < final(self).profiles@.len())
                    ==> (#[trigger] final(self).profiles@[i]).updated_at@ == (
                #[trigger] final(self).profiles@[j]).updated_at@,
            final(self).common_config == old(self).common_config,
            ids_distinct(old(self).profiles@) ==> at_most_one_applied(final(self).profiles@),
            ids_distinct(old(self).profiles@) ==> ids_distinct(final(self).profiles@),
    {
        let now = now_rfc3339();
        self.select_codex_provider_at(id, now.as_str());
    }

    /// Reorders profiles by the given id list, stamped with the current
    /// time; every touched record gets the same fresh update time; see
    /// `reorder_codex_providers_at` for the exact transition.
    pub fn reorder_codex_providers(&mut self, ids: &Vec<String>)
        requires
            ids_distinct(old(self).profiles@),
            ids@.len() <= 0x7fffffffffffffff,
        ensures
            final(self).profiles@.len() == old(self).profiles@.len(),
            forall|i: int|
                0 <= i < old(self).profiles@.len() ==> reorder_patched_core(
                    old(self).profiles@[i],
                    #[trigger] final(self).profiles@[i],
                    ids@,
                ),
            forall|i: int, j: int|
                (0 <= i < old(self).profiles@.len() && 0 <= j < old(self).profiles@.len()
                    && last_pos_of(ids@, old(self).profiles@[i].id@) >= 0 && last_pos_of(
                    ids@,
                    old(self).profiles@[j].id@,
                ) >= 0) ==> (#[trigger] final(self).profiles@[i]).updated_at@ == (
                #[trigger] final(self).profiles@[j]).updated_at@,
            final(self).common_config == old(self).common_config,
            ids_distinct(final(self).profiles@),
            at_most_one_applied(old(self).profiles@) ==> at_most_one_applied(
                final(self).profiles@,
            ),
    {
        let now = now_rfc3339();
        self.reorder_codex_providers_at(ids, now.as_str());
        proof {
            assert forall|i: int| 0 <= i < old(self).profiles@.len() implies reorder_patched_core(
                old(self).profiles@[i],
                #[trigger] self.profiles@[i],
                ids@,
            ) by {
                assert(reorder_patched(old(self).profiles@[i], self.profiles@[i], ids@, now@));
            }
        }
    }

    /// Saves the common config stamped with the current time; see
    /// `save_codex_common_config_at` for the exact transition.
    pub fn save_codex_common_config(&mut self, config: String) -> (r: Result<(), CfgError>)
        ensures
            (!all_ws(config@) && toml_doc(config@) is None) ==> (r matches Err(e) && e matches
                CfgError::ParseError(_) && *final(self) == *old(self)),
            (all_ws(config@) || toml_doc(config@) is Some) ==> ({
                &&& r is Ok
                &&& final(self).common_config matches Some(c) && c.config == config
                &&& final(self).profiles == old(self).profiles
            }),
    {
        let now = now_rfc3339();
        self.save_codex_common_config_at(config, now)
    }

    /// Runs the first-run import stamped with the current time; see
    /// `init_codex_provider_from_settings_at` for the exact transition.
    pub fn init_codex_provider_from_settings(
        &mut self,
        legacy_auth: Option<String>,
        legacy_config: Option<String>,
    ) -> (r: Result<bool, CfgError>)
        ensures
            old(self).profiles@.len() > 0 ==> (r matches Ok(b) && b == false && *final(self)
                == *old(self)),
            (old(self).profiles@.len() == 0 && legacy_auth is None) ==> (r matches Ok(b) && b
                == false && *final(self) == *old(self)),
            (old(self).profiles@.len() == 0 && legacy_auth is Some) ==> {
                let a = legacy_auth.unwrap();
                &&& json_of(a@) is None ==> (r matches Err(e) && e matches CfgError::ParseError(_)
                    && *final(self) == *old(self))
                &&& json_of(a@) is Some ==> (r matches Ok(b) && b == true && {
                    let cfg = match legacy_config {
                        Option::Some(c) => c@,
                        Option::None => Seq::<char>::empty(),
                    };
                    let doc = JsonData::Obj(
                        seq![
                            ("auth"@, json_of(a@).unwrap()),
                            ("config"@, JsonData::Str(cfg)),
                        ],
                    );
                    &&& final(self).profiles@.len() == 1
                    &&& final(self).profiles@[0].id@ == "default-config"@
                    &&& final(self).profiles@[0].is_applied == true
                    &&& final(self).profiles@[0].sort_index == Option::Some(0i64)
                    &&& final(self).profiles@[0].settings_config@ == json_min(doc)
                    &&& final(self).profiles@[0].created_at == final(self).profiles@[0].updated_at
                    &&& final(self).common_config == old(self).common_config
                })
            },
    {
        let now = now_rfc3339();
        self.init_codex_provider_from_settings_at(legacy_auth, legacy_config, now)
    }
}

} // verus!
