//! Using a provisioned ladder: granting the role of a milestone, tearing
//! the ladder down, and reconciling the roles of every user with their
//! stored level.
//!
//! Each operation comes twice: once on the text kept in the store, which is
//! read back first, and once on the map itself.

use crate::error::EngineError;
use crate::ladder::{milestones_model, milestones_up_to, RoleEntry, RoleMap};
use crate::policy::LevelingPolicy;
use crate::progress::UserProgress;
use crate::store::{decode_role_map, parsed_role_table};
use vstd::prelude::*;

verus! {

/// What the store holds under the reserved key, as text.
pub open spec fn stored_text(stored: Option<&str>) -> Option<Seq<char>> {
    match stored {
        Some(text) => Some(text@),
        None => None,
    }
}

/// The ladder that the store holds: none where nothing is stored, corrupt
/// where what is stored does not read back as a map.
pub open spec fn stored_ladder(stored: Option<Seq<char>>) -> Result<
    Map<u32, Seq<char>>,
    EngineError,
> {
    match stored {
        None => Err(EngineError::NotFound),
        Some(text) => match parsed_role_table(text) {
            Some(map) => Ok(map),
            None => Err(EngineError::Corruption),
        },
    }
}

/// Reads the guild's ladder from what the store holds under the reserved
/// key.
pub fn load_ladder(stored: Option<&str>) -> (r: Result<RoleMap, EngineError>)
    ensures
        match stored_ladder(stored_text(stored)) {
            Ok(model) => r matches Ok(map) && map@ == model,
            Err(e) => r matches Err(f) && f == e,
        },
{
    match stored {
        None => Err(EngineError::NotFound),
        Some(text) => decode_role_map(text),
    }
}

/// A request to the role service: add the role `role_id`, which stands for
/// milestone `level`, to the user. Adding a role that the user holds
/// already changes nothing there.
#[derive(Clone, Debug, PartialEq, Eq)]
pub struct RoleGrant {
    pub guild_id: String,
    pub user_id: String,
    pub level: u32,
    pub role_id: String,
}

/// The role that a ladder has for `level`. A ladder that does not reach the
/// level is a mismatch between ladder and leveling, and fails the grant.
pub open spec fn grant_model(map: Map<u32, Seq<char>>, level: u32) -> Result<
    Seq<char>,
    EngineError,
> {
    if map.contains_key(level) {
        Ok(map[level])
    } else {
        Err(EngineError::ExternalApiFailure)
    }
}

/// `r` asks for `role_id` to be granted to the user for `level`.
pub open spec fn grants(
    r: Result<RoleGrant, EngineError>,
    guild_id: Seq<char>,
    user_id: Seq<char>,
    level: u32,
    role_id: Seq<char>,
) -> bool {
    r matches Ok(g) && g.guild_id@ == guild_id && g.user_id@ == user_id && g.level == level
        && g.role_id@ == role_id
}

/// The request that grants the role of milestone `level` of `map` to the
/// user.
pub fn role_grant_from(map: &RoleMap, guild_id: &str, user_id: &str, level: u32) -> (r: Result<
    RoleGrant,
    EngineError,
>)
    ensures
        match grant_model(map@, level) {
            Ok(role_id) => grants(r, guild_id@, user_id@, level, role_id),
            Err(e) => r matches Err(f) && f == e,
        },
{
    match map.role_for(level) {
        Some(role_id) => Ok(
            RoleGrant {
                guild_id: guild_id.to_owned(),
                user_id: user_id.to_owned(),
                level,
                role_id,
            },
        ),
        None => Err(EngineError::ExternalApiFailure),
    }
}

/// Grants the role of milestone `level` to the user, from the ladder as the
/// store holds it.
pub fn grant_milestone_role(stored: Option<&str>, guild_id: &str, user_id: &str, level: u32) -> (r:
    Result<RoleGrant, EngineError>)
    ensures
        match stored_ladder(stored_text(stored)) {
            Ok(map) => match grant_model(map, level) {
                Ok(role_id) => grants(r, guild_id@, user_id@, level, role_id),
                Err(e) => r matches Err(f) && f == e,
            },
            Err(e) => r matches Err(f) && f == e,
        },
{
    match load_ladder(stored) {
        Ok(map) => role_grant_from(&map, guild_id, user_id, level),
        Err(e) => Err(e),
    }
}

/// What tearing a ladder down asks for: every role of the ladder is to be
/// deleted, each deletion on its own, and the stored map removed whatever
/// becomes of the deletions. `count` is the number of deletions.
#[derive(Clone, Debug, PartialEq, Eq)]
pub struct Teardown {
    pub deletions: Vec<RoleEntry>,
    pub count: usize,
}

/// `entries` lists every rung of `map` exactly once.
pub open spec fn covers(entries: Seq<RoleEntry>, map: Map<u32, Seq<char>>) -> bool {
    &&& entries.len() == map.dom().len()
    &&& forall|i: int|
        0 <= i < entries.len() ==> map.contains_key((#[trigger] entries[i]).milestone)
            && map[entries[i].milestone] == entries[i].role_id@
    &&& forall|i: int, j: int|
        0 <= i < j < entries.len() ==> entries[i].milestone != entries[j].milestone
}

/// The teardown of `map`.
pub fn teardown_of(map: &RoleMap) -> (t: Teardown)
    ensures
        covers(t.deletions@, map@),
        t.count == map@.dom().len(),
{
    let deletions = map.entries();
    let count = deletions.len();
    Teardown { deletions, count }
}

/// Tears the guild's ladder down. A guild without a ladder is reported as
/// such, and nothing is deleted.
pub fn teardown_ladder(stored: Option<&str>) -> (r: Result<Teardown, EngineError>)
    ensures
        match stored_ladder(stored_text(stored)) {
            Ok(map) => r matches Ok(t) && covers(t.deletions@, map) && t.count == map.dom().len(),
            Err(e) => r matches Err(f) && f == e,
        },
        stored is None ==> (r matches Err(f) && f == EngineError::NotFound),
{
    match load_ladder(stored) {
        Ok(map) => Ok(teardown_of(&map)),
        Err(e) => Err(e),
    }
}

/// The roles that one user is owed.
#[derive(Clone, Debug, PartialEq, Eq)]
pub struct UserReconciliation {
    /// The user.
    pub user_id: String,
    /// The roles to grant, from milestone 0 upwards.
    pub grants: Vec<RoleEntry>,
    /// The first milestone that the ladder lacks, at which the user's
    /// reconciliation stops and fails; `None` where the ladder covers the
    /// user's level.
    pub missing: Option<u32>,
}

/// `grants` and `missing` are what a user at `level` is owed from `map`:
/// the roles of the milestones up to the level, in order, as far as the
/// ladder has them without a gap.
pub open spec fn reconciled(
    map: Map<u32, Seq<char>>,
    level: nat,
    step: nat,
    grants: Seq<RoleEntry>,
    missing: Option<u32>,
) -> bool {
    let due = milestones_model(level, step);
    &&& grants.len() <= due.len()
    &&& forall|i: int|
        0 <= i < grants.len() ==> (#[trigger] grants[i]).milestone == due[i] && map.contains_key(
            grants[i].milestone,
        ) && grants[i].role_id@ == map[grants[i].milestone]
    &&& match missing {
        Some(m) => grants.len() < due.len() && m == due[grants.len() as int] && !map.contains_key(
            m,
        ),
        None => grants.len() == due.len(),
    }
}

/// The milestones up to a level are distinct and ascending, each a multiple
/// of the step and none above the level: no milestone is granted twice.
pub proof fn lemma_milestones_ascend(level: nat, step: nat)
    requires
        step >= 1,
    ensures
        milestones_model(level, step).len() == level / step + 1,
        forall|i: int|
            0 <= i < milestones_model(level, step).len() ==> (#[trigger] milestones_model(
                level,
                step,
            )[i]) == i * step && milestones_model(level, step)[i] <= level,
        forall|i: int, j: int|
            0 <= i < j < milestones_model(level, step).len() ==> (#[trigger] milestones_model(
                level,
                step,
            )[i]) < (#[trigger] milestones_model(level, step)[j]),
{
    let due = milestones_model(level, step);
    let l = level as int;
    let s = step as int;
    vstd::arithmetic::div_mod::lemma_fundamental_div_mod(l, s);
    vstd::arithmetic::div_mod::lemma_mod_bound(l, s);
    assert forall|i: int| 0 <= i < due.len() implies (#[trigger] due[i]) == i * step && due[i]
        <= level by {
        assert(i * s <= l) by (nonlinear_arith)
            requires
                0 <= i <= l / s,
                l == s * (l / s) + l % s,
                0 <= l % s,
                s >= 1,
        ;
    }
    assert forall|i: int, j: int| 0 <= i < j < due.len() implies (#[trigger] due[i]) < (
    #[trigger] due[j]) by {
        assert(i * s < j * s) by (nonlinear_arith)
            requires
                0 <= i < j,
                s >= 1,
        ;
    }
}

/// What a user at `level` is owed from `map`.
pub fn reconcile_level(map: &RoleMap, level: u32, step: u32) -> (r: (Vec<RoleEntry>, Option<u32>))
    requires
        step >= 1,
    ensures
        reconciled(map@, level as nat, step as nat, r.0@, r.1),
{
    let due = milestones_up_to(level, step);
    let ghost want = milestones_model(level as nat, step as nat);
    assert(due@.len() == want.len());
    assert forall|i: int| 0 <= i < due@.len() implies due@[i] == want[i] by {
        assert(due@.map_values(|m: u32| m as nat)[i] == want[i]);
    }
    let mut grants: Vec<RoleEntry> = Vec::new();
    let mut i: usize = 0;
    while i < due.len()
        invariant
            i <= due@.len(),
            due@.len() == want.len(),
            want == milestones_model(level as nat, step as nat),
            forall|k: int| 0 <= k < due@.len() ==> due@[k] == want[k],
            grants@.len() == i,
            forall|k: int|
                0 <= k < grants@.len() ==> (#[trigger] grants@[k]).milestone == want[k]
                    && map@.contains_key(grants@[k].milestone) && grants@[k].role_id@
                    == map@[grants@[k].milestone],
        decreases due@.len() - i,
    {
        let milestone = due[i];
        match map.role_for(milestone) {
            Some(role_id) => {
                grants.push(RoleEntry { milestone, role_id });
            },
            None => {
                return (grants, Some(milestone));
            },
        }
        i = i + 1;
    }
    (grants, None)
}

/// What every user of `users` is owed from `map`, user by user. A user whom
/// the ladder fails takes nothing from the others.
pub fn reconcile_users(map: &RoleMap, users: &Vec<UserProgress>, policy: &LevelingPolicy) -> (out:
    Vec<UserReconciliation>)
    ensures
        out@.len() == users@.len(),
        forall|i: int|
            0 <= i < out@.len() ==> (#[trigger] out@[i]).user_id@ == users@[i].user_id@
                && reconciled(
                map@,
                users@[i].level as nat,
                policy@.role_step,
                out@[i].grants@,
                out@[i].missing,
            ),
{
    let step = policy.role_step();
    let mut out: Vec<UserReconciliation> = Vec::new();
    let mut i: usize = 0;
    while i < users.len()
        invariant
            i <= users@.len(),
            step >= 1,
            step == policy@.role_step,
            out@.len() == i,
            forall|k: int|
                0 <= k < out@.len() ==> (#[trigger] out@[k]).user_id@ == users@[k].user_id@
                    && reconciled(
                    map@,
                    users@[k].level as nat,
                    policy@.role_step,
                    out@[k].grants@,
                    out@[k].missing,
                ),
        decreases users@.len() - i,
    {
        let user = &users[i];
        let (grants, missing) = reconcile_level(map, user.level, step);
        out.push(UserReconciliation { user_id: user.user_id.clone(), grants, missing });
        i = i + 1;
    }
    out
}

/// Brings the roles of every user in line with their stored level, from
/// the ladder as the store holds it.
pub fn assign_missing_roles(
    stored: Option<&str>,
    users: &Vec<UserProgress>,
    policy: &LevelingPolicy,
) -> (r: Result<Vec<UserReconciliation>, EngineError>)
    ensures
        match stored_ladder(stored_text(stored)) {
            Ok(map) => r matches Ok(out) && out@.len() == users@.len() && forall|i: int|
                0 <= i < out@.len() ==> (#[trigger] out@[i]).user_id@ == users@[i].user_id@
                    && reconciled(
                    map,
                    users@[i].level as nat,
                    policy@.role_step,
                    out@[i].grants@,
                    out@[i].missing,
                ),
            Err(e) => r matches Err(f) && f == e,
        },
{
    match load_ladder(stored) {
        Ok(map) => Ok(reconcile_users(&map, users, policy)),
        Err(e) => Err(e),
    }
}

/// How a batch went: how many of its items succeeded and how many failed.
#[derive(Clone, Copy, Debug, PartialEq, Eq)]
pub struct BatchSummary {
    pub succeeded: usize,
    pub failed: usize,
}

/// The number of items among `outcomes` that succeeded.
pub open spec fn successes(outcomes: Seq<bool>) -> nat
    decreases outcomes.len(),
{
    if outcomes.len() == 0 {
        0
    } else if outcomes.last() {
        successes(outcomes.drop_last()) + 1
    } else {
        successes(outcomes.drop_last())
    }
}

/// No batch has more successes than items.
pub proof fn lemma_successes_bounded(outcomes: Seq<bool>)
    ensures
        successes(outcomes) <= outcomes.len(),
    decreases outcomes.len(),
{
    if outcomes.len() > 0 {
        lemma_successes_bounded(outcomes.drop_last());
    }
}

/// Sums a batch up from the outcome of each of its items, `true` for an
/// item that succeeded. A failed item fails nothing but itself.
pub fn summarize(outcomes: &Vec<bool>) -> (summary: BatchSummary)
    ensures
        summary.succeeded == successes(outcomes@),
        summary.succeeded + summary.failed == outcomes@.len(),
{
    let mut succeeded: usize = 0;
    let mut failed: usize = 0;
    let mut i: usize = 0;
    assert(outcomes@.subrange(0, 0) =~= Seq::<bool>::empty());
    while i < outcomes.len()
        invariant
            i <= outcomes@.len(),
            succeeded == successes(outcomes@.subrange(0, i as int)),
            succeeded + failed == i,
        decreases outcomes@.len() - i,
    {
        assert(outcomes@.subrange(0, i + 1).drop_last() =~= outcomes@.subrange(0, i as int));
        if outcomes[i] {
            succeeded = succeeded + 1;
        } else {
            failed = failed + 1;
        }
        i = i + 1;
    }
    assert(outcomes@.subrange(0, i as int) =~= outcomes@);
    BatchSummary { succeeded, failed }
}

} // verus!
