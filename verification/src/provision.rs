//! Provisioning a guild's role ladder, one role at a time.
//!
//! Creating a role is slow outside work, so provisioning is a state machine:
//! the caller asks what to do next, creates the role, and reports the
//! identifier it was given. The map is handed out only when every role of
//! the ladder has been created.

use crate::error::EngineError;
use crate::ladder::{role_name, role_name_model, table_model, RoleMap};
use std::collections::HashMap;
use vstd::prelude::*;

verus! {

/// The state of one provisioning run as mathematics: a ladder of `count`
/// milestones `step` apart, of which the `done` highest have their role.
pub struct ProvisionModel {
    pub step: nat,
    pub count: nat,
    pub done: nat,
    pub created: Map<u32, Seq<char>>,
}

impl ProvisionModel {
    /// The milestone whose role is created as number `ordinal`, counted
    /// from 0: roles are created from the highest milestone down.
    pub open spec fn milestone_at(self, ordinal: nat) -> int {
        (self.count - 1 - ordinal) * self.step
    }

    /// `milestone` is one of the `done` highest milestones of the ladder.
    pub open spec fn holds(self, milestone: u32) -> bool {
        &&& milestone as nat % self.step == 0
        &&& self.count - self.done <= milestone as nat / self.step < self.count
    }

    /// The run is consistent: the ladder fits into the levels that exist,
    /// and exactly the milestones created so far have an identifier.
    pub open spec fn valid(self) -> bool {
        &&& self.step >= 1
        &&& self.count >= 1
        &&& self.done <= self.count
        &&& (self.count - 1) * self.step <= u32::MAX
        &&& forall|m: u32| #[trigger] self.created.contains_key(m) <==> self.holds(m)
    }

    /// Every role of the ladder has been created.
    pub open spec fn complete(self) -> bool {
        self.done == self.count
    }

    /// The run after the role of the next milestone was created as `id`.
    pub open spec fn recorded(self, id: Seq<char>) -> ProvisionModel {
        ProvisionModel {
            done: self.done + 1,
            created: self.created.insert(self.milestone_at(self.done) as u32, id),
            ..self
        }
    }
}

/// How a run starts: refused where the guild already has a ladder or the
/// step is 0, otherwise with nothing created yet.
pub open spec fn begin_model(already_provisioned: bool, max_level: nat, step: nat) -> Result<
    ProvisionModel,
    EngineError,
> {
    if already_provisioned {
        Err(EngineError::AlreadyExists)
    } else if step == 0 {
        Err(EngineError::InvalidInput)
    } else {
        Ok(ProvisionModel { step, count: max_level / step + 1, done: 0, created: Map::empty() })
    }
}

/// What the caller of a provisioning run does next.
#[derive(Clone, Debug, PartialEq, Eq)]
pub enum ProvisionStep {
    /// Create the role `name` for `milestone`: creation number `ordinal` of
    /// `total`, counted from 1.
    CreateRole { milestone: u32, name: String, ordinal: u64, total: u64 },
    /// Every role exists: take the map and persist it.
    Persist,
}

/// One provisioning run.
pub struct Provisioner {
    step: u32,
    count: u64,
    done: u64,
    created: HashMap<u32, String>,
}

impl View for Provisioner {
    type V = ProvisionModel;

    closed spec fn view(&self) -> ProvisionModel {
        ProvisionModel {
            step: self.step as nat,
            count: self.count as nat,
            done: self.done as nat,
            created: table_model(self.created@),
        }
    }
}

proof fn lemma_multiple(q: int, s: int)
    requires
        q >= 0,
        s >= 1,
    ensures
        (q * s) % s == 0,
        (q * s) / s == q,
{
    vstd::arithmetic::div_mod::lemma_fundamental_div_mod_converse(q * s, s, q, 0);
}

proof fn lemma_quotient_of_multiple(m: int, s: int)
    requires
        m >= 0,
        s >= 1,
        m % s == 0,
    ensures
        m == (m / s) * s,
{
    vstd::arithmetic::div_mod::lemma_fundamental_div_mod(m, s);
    assert(s * (m / s) == (m / s) * s) by (nonlinear_arith);
}

/// Recording the next role keeps a run consistent.
pub proof fn lemma_recorded_valid(p: ProvisionModel, id: Seq<char>)
    requires
        p.valid(),
        !p.complete(),
    ensures
        p.recorded(id).valid(),
        0 <= p.milestone_at(p.done) <= u32::MAX,
        !p.created.contains_key(p.milestone_at(p.done) as u32),
{
    let q = p.count - 1 - p.done;
    let s = p.step as int;
    let top = p.count - 1;
    assert(0 <= q * s <= top * s) by (nonlinear_arith)
        requires
            0 <= q <= top,
            s >= 1,
    ;
    lemma_multiple(q, s);
    let key = p.milestone_at(p.done) as u32;
    let after = p.recorded(id);
    assert forall|m: u32| #[trigger] after.created.contains_key(m) <==> after.holds(m) by {
        if m == key {
        } else if after.holds(m) {
            if m as int / s == q {
                lemma_quotient_of_multiple(m as int, s);
            }
            assert(p.holds(m));
        } else if after.created.contains_key(m) {
            assert(p.created.contains_key(m));
            assert(p.holds(m));
        }
    }
}

impl Provisioner {
    /// Every run is consistent.
    #[verifier::type_invariant]
    pub open spec fn inv(self) -> bool {
        self@.valid()
    }

    /// Starts a run for a ladder with a role at every multiple of `step` up
    /// to `max_level`. A guild that already has a ladder is refused, and so
    /// is a step of 0; nothing is created in either case.
    pub fn begin(already_provisioned: bool, max_level: u32, step: u32) -> (r: Result<
        Provisioner,
        EngineError,
    >)
        ensures
            match begin_model(already_provisioned, max_level as nat, step as nat) {
                Ok(m) => r matches Ok(p) && p@ == m && m.valid(),
                Err(e) => r matches Err(f) && f == e,
            },
    {
        if already_provisioned {
            return Err(EngineError::AlreadyExists);
        }
        if step == 0 {
            return Err(EngineError::InvalidInput);
        }
        let count: u64 = (max_level / step) as u64 + 1;
        let created: HashMap<u32, String> = HashMap::new();
        proof {
            let l = max_level as int;
            let s = step as int;
            vstd::arithmetic::div_mod::lemma_fundamental_div_mod(l, s);
            vstd::arithmetic::div_mod::lemma_mod_bound(l, s);
            assert((l / s) * s <= l) by (nonlinear_arith)
                requires
                    l == s * (l / s) + l % s,
                    0 <= l % s,
            ;
            assert(table_model(created@) =~= Map::<u32, Seq<char>>::empty());
        }
        Ok(Provisioner { step, count, done: 0, created })
    }

    /// Whether every role of the ladder has been created.
    pub fn is_complete(&self) -> (done: bool)
        ensures
            done == self@.complete(),
    {
        self.done == self.count
    }

    /// What the caller does next.
    pub fn next_step(&self) -> (next: ProvisionStep)
        ensures
            self@.complete() ==> next is Persist,
            !self@.complete() ==> (next matches ProvisionStep::CreateRole {
                milestone,
                name,
                ordinal,
                total,
            } && milestone == self@.milestone_at(self@.done) && name@ == role_name_model(
                milestone as nat,
            ) && ordinal == self@.done + 1 && total == self@.count),
    {
        proof {
            use_type_invariant(self);
        }
        if self.done == self.count {
            return ProvisionStep::Persist;
        }
        proof {
            lemma_recorded_valid(self@, Seq::empty());
        }
        let rank: u64 = self.count - 1 - self.done;
        assert(rank * self.step == self@.milestone_at(self@.done));
        let milestone: u32 = (rank * self.step as u64) as u32;
        ProvisionStep::CreateRole {
            milestone,
            name: role_name(milestone),
            ordinal: self.done + 1,
            total: self.count,
        }
    }

    /// The share of the ladder that has been created, in percent.
    pub fn percent_complete(&self) -> (percent: u8)
        ensures
            percent == self@.done * 100 / self@.count,
    {
        proof {
            use_type_invariant(self);
        }
        assert(self.count <= 0x1_0000_0000) by (nonlinear_arith)
            requires
                (self.count - 1) * self.step <= 0xffff_ffff,
                self.step >= 1,
        ;
        let scaled: u64 = self.done * 100;
        let percent: u64 = scaled / self.count;
        proof {
            let d = self.done as int;
            let c = self.count as int;
            vstd::arithmetic::div_mod::lemma_div_is_ordered(d * 100, c * 100, c);
            lemma_multiple(100, c);
            assert(100 * c == c * 100) by (nonlinear_arith);
        }
        percent as u8
    }

    /// Records that the role which [`Provisioner::next_step`] asked for
    /// exists under `role_id`. A run that is complete takes no more roles.
    pub fn record_created(&mut self, role_id: String) -> (r: Result<(), EngineError>)
        ensures
            old(self)@.complete() ==> r == Err::<(), EngineError>(EngineError::InvalidInput)
                && final(self)@ == old(self)@,
            !old(self)@.complete() ==> r is Ok && final(self)@ == old(self)@.recorded(role_id@),
    {
        broadcast use vstd::std_specs::hash::group_hash_axioms;

        proof {
            use_type_invariant(&*self);
        }
        if self.done == self.count {
            return Err(EngineError::InvalidInput);
        }
        let ghost before = self@;
        proof {
            lemma_recorded_valid(before, role_id@);
        }
        let mut taken = Provisioner {
            step: self.step,
            count: self.count,
            done: 0,
            created: HashMap::new(),
        };
        assert(table_model(taken.created@) =~= Map::<u32, Seq<char>>::empty());
        std::mem::swap(self, &mut taken);
        let Provisioner { step, count, done, created } = taken;
        let mut created = created;
        let rank: u64 = count - 1 - done;
        assert(rank * step == before.milestone_at(before.done));
        let milestone: u32 = (rank * step as u64) as u32;
        let ghost table = created@;
        created.insert(milestone, role_id);
        assert(table_model(created@) =~= table_model(table).insert(milestone, role_id@));
        *self = Provisioner { step, count, done: done + 1, created };
        Ok(())
    }

    /// Ends the run. The map is handed out only if every role was created;
    /// a run that was cut short leaves nothing to persist.
    pub fn finish(self) -> (r: Result<RoleMap, EngineError>)
        ensures
            self@.complete() ==> (r matches Ok(map) && map@ == self@.created),
            !self@.complete() ==> (r matches Err(e) && e == EngineError::ExternalApiFailure),
    {
        if self.done == self.count {
            Ok(RoleMap::from_table(self.created))
        } else {
            Err(EngineError::ExternalApiFailure)
        }
    }
}

/// The run after the roles of the next milestones were created as `ids`,
/// in that order.
pub open spec fn run(p: ProvisionModel, ids: Seq<Seq<char>>) -> ProvisionModel
    decreases ids.len(),
{
    if ids.len() == 0 {
        p
    } else {
        run(p, ids.drop_last()).recorded(ids.last())
    }
}

/// The ladder up to `max_level` whose roles were created, from the highest
/// milestone down, as `ids`.
pub open spec fn ladder_model(max_level: nat, step: nat, ids: Seq<Seq<char>>) -> Map<
    u32,
    Seq<char>,
> {
    Map::new(
        |m: u32| m as nat % step == 0 && m <= max_level,
        |m: u32| ids[max_level / step - m as nat / step],
    )
}

/// A whole provisioning of a guild whose stored map is `slot`, where the
/// role service answers the creations with `ids`: the result, and the
/// stored map afterwards. The map is stored only if every creation was
/// answered; otherwise the guild is left as it was.
pub open spec fn provision_model(
    slot: Option<Map<u32, Seq<char>>>,
    max_level: nat,
    step: nat,
    ids: Seq<Seq<char>>,
) -> (Result<Map<u32, Seq<char>>, EngineError>, Option<Map<u32, Seq<char>>>) {
    match begin_model(slot is Some, max_level, step) {
        Err(e) => (Err(e), slot),
        Ok(p) => if ids.len() == p.count {
            (Ok(run(p, ids).created), Some(run(p, ids).created))
        } else {
            (Err(EngineError::ExternalApiFailure), slot)
        },
    }
}

proof fn lemma_run_shape(p: ProvisionModel, ids: Seq<Seq<char>>)
    requires
        p.valid(),
        p.done == 0,
        ids.len() <= p.count,
    ensures
        run(p, ids).valid(),
        run(p, ids).done == ids.len(),
        run(p, ids).step == p.step,
        run(p, ids).count == p.count,
        forall|m: u32| #[trigger]
            run(p, ids).holds(m) ==> run(p, ids).created[m] == ids[p.count - 1 - m as nat
                / p.step],
    decreases ids.len(),
{
    if ids.len() > 0 {
        let before = run(p, ids.drop_last());
        let after = run(p, ids);
        lemma_run_shape(p, ids.drop_last());
        lemma_recorded_valid(before, ids.last());
        let s = p.step as int;
        let q = p.count - 1 - before.done;
        let key = before.milestone_at(before.done) as u32;
        lemma_multiple(q, s);
        assert forall|m: u32| #[trigger] after.holds(m) implies after.created[m] == ids[p.count
            - 1 - m as nat / p.step] by {
            assert(after.created.contains_key(m));
            if m != key {
                assert(before.created.contains_key(m));
                assert(before.holds(m));
            }
        }
    }
}

/// A run that is started on a guild without a ladder and sees every
/// creation answered ends complete, with exactly the ladder's milestones,
/// each under the identifier that its creation was answered with.
pub proof fn lemma_complete_run_builds_ladder(max_level: nat, step: nat, ids: Seq<Seq<char>>)
    requires
        step >= 1,
        max_level <= u32::MAX,
        ids.len() == max_level / step + 1,
    ensures
        begin_model(false, max_level, step) matches Ok(p) && run(p, ids).complete() && run(
            p,
            ids,
        ).valid() && run(p, ids).created == ladder_model(max_level, step, ids),
{
    let p = begin_model(false, max_level, step)->Ok_0;
    let l = max_level as int;
    let s = step as int;
    vstd::arithmetic::div_mod::lemma_fundamental_div_mod(l, s);
    vstd::arithmetic::div_mod::lemma_mod_bound(l, s);
    assert((l / s) * s <= l) by (nonlinear_arith)
        requires
            l == s * (l / s) + l % s,
            0 <= l % s,
    ;
    assert(p.valid());
    lemma_run_shape(p, ids);
    let end = run(p, ids);
    let want = ladder_model(max_level, step, ids);
    assert forall|m: u32| end.holds(m) <==> (m as nat % step == 0 && m <= max_level) by {
        let mi = m as int;
        if mi % s == 0 {
            if mi <= l {
                vstd::arithmetic::div_mod::lemma_div_is_ordered(mi, l, s);
            }
            if mi / s <= l / s {
                lemma_quotient_of_multiple(mi, s);
                assert((mi / s) * s <= (l / s) * s) by (nonlinear_arith)
                    requires
                        mi / s <= l / s,
                        s >= 1,
                ;
            }
        }
    }
    assert(end.created =~= want);
}

/// Provisioning a guild that already has a ladder is refused and leaves the
/// stored map as it is, whatever is asked for.
pub proof fn lemma_provisioned_guild_is_left_alone(
    stored: Map<u32, Seq<char>>,
    max_level: nat,
    step: nat,
    ids: Seq<Seq<char>>,
)
    ensures
        provision_model(Some(stored), max_level, step, ids) == (
            Err::<Map<u32, Seq<char>>, EngineError>(EngineError::AlreadyExists),
            Some(stored),
        ),
{
}

/// Provisioning twice: where the first provisioning of a guild succeeds,
/// the second is refused as already provisioned and the map that the first
/// one stored reads back unchanged.
pub proof fn lemma_provision_twice(
    first_max: nat,
    first_step: nat,
    first_ids: Seq<Seq<char>>,
    second_max: nat,
    second_step: nat,
    second_ids: Seq<Seq<char>>,
)
    ensures
        ({
            let first = provision_model(None, first_max, first_step, first_ids);
            let second = provision_model(first.1, second_max, second_step, second_ids);
            first.0 matches Ok(made) ==> first.1 == Some(made) && second.0 == Err::<
                Map<u32, Seq<char>>,
                EngineError,
            >(EngineError::AlreadyExists) && second.1 == first.1
        }),
{
}

} // verus!
