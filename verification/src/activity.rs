//! The leveling state machine: what one activity event does to one user's
//! progress, and which side effects it asks for.
//!
//! The machine is a function from the stored record and the event to the
//! next record and a list of intents. Loading and saving the record, and
//! carrying out the intents, is the caller's part.

use crate::curve::{lemma_threshold_floor, CurveModel};
use crate::error::EngineError;
use crate::policy::{grant_amount, LevelingPolicy, PolicyModel, COOLDOWN_SECONDS, GRANT_END, GRANT_MIN};
use crate::progress::{fresh_model, ProgressModel, UserProgress};
use vstd::prelude::*;

verus! {

/// A side effect that the state machine asks its caller to carry out.
#[derive(Clone, Debug, PartialEq, Eq)]
pub enum Intent {
    /// The user has just reached `level`: announce it.
    LevelUp { level: u32 },
    /// Make sure that the user holds the role of milestone `level`.
    GrantMilestoneRole { guild_id: String, user_id: String, level: u32 },
}

/// An intent as mathematics.
pub enum IntentModel {
    LevelUp { level: nat },
    GrantMilestoneRole { guild_id: Seq<char>, user_id: Seq<char>, level: nat },
}

impl View for Intent {
    type V = IntentModel;

    open spec fn view(&self) -> IntentModel {
        match *self {
            Intent::LevelUp { level } => IntentModel::LevelUp { level: level as nat },
            Intent::GrantMilestoneRole { guild_id, user_id, level } => {
                IntentModel::GrantMilestoneRole {
                    guild_id: guild_id@,
                    user_id: user_id@,
                    level: level as nat,
                }
            },
        }
    }
}

/// The models of a list of intents, in order.
pub open spec fn intents_model(intents: Seq<Intent>) -> Seq<IntentModel> {
    intents.map_values(|i: Intent| i@)
}

/// What the store held under the user's key when the event arrived.
#[derive(Clone, Debug, PartialEq, Eq)]
pub enum StoredProgress {
    /// Nothing: the user is seen for the first time.
    Absent,
    /// A record.
    Present(UserProgress),
    /// Something that could not be read back as a record.
    Corrupt,
}

/// The store's answer as mathematics.
pub enum StoredModel {
    Absent,
    Present(ProgressModel),
    Corrupt,
}

impl View for StoredProgress {
    type V = StoredModel;

    open spec fn view(&self) -> StoredModel {
        match *self {
            StoredProgress::Absent => StoredModel::Absent,
            StoredProgress::Present(p) => StoredModel::Present(p@),
            StoredProgress::Corrupt => StoredModel::Corrupt,
        }
    }
}

/// The record to persist and the intents to carry out after one event.
#[derive(Clone, Debug, PartialEq, Eq)]
pub struct ActivityOutcome {
    pub progress: UserProgress,
    pub intents: Vec<Intent>,
}

/// An XP counter after `grant` points are added: the sum, held at the most
/// that a counter can show.
pub open spec fn credited(xp: nat, grant: nat) -> nat {
    if xp + grant <= u32::MAX {
        xp + grant
    } else {
        u32::MAX as nat
    }
}

impl ProgressModel {
    /// The event falls within the cooldown that the last grant started.
    pub open spec fn cooling(self, event_time: int) -> bool {
        event_time - self.last_activity_time <= COOLDOWN_SECONDS
    }

    /// A grant of `grant` points carries the user over the cost of their
    /// level.
    pub open spec fn levels_up(self, c: CurveModel, grant: nat) -> bool {
        credited(self.xp, grant) >= c.threshold(self.level)
    }

    /// The record after a grant at `event_time`: one level up with the XP
    /// back at 0 where the cost is reached, the XP credited otherwise.
    pub open spec fn granted(self, c: CurveModel, event_time: int, grant: nat) -> ProgressModel {
        if self.levels_up(c, grant) {
            ProgressModel { level: self.level + 1, xp: 0, last_activity_time: event_time, ..self }
        } else {
            ProgressModel {
                xp: credited(self.xp, grant),
                last_activity_time: event_time,
                ..self
            }
        }
    }

    /// The record after an event: unchanged within the cooldown, granted
    /// otherwise.
    pub open spec fn after_event(self, c: CurveModel, event_time: int, grant: nat) -> ProgressModel {
        if self.cooling(event_time) {
            self
        } else {
            self.granted(c, event_time, grant)
        }
    }

    /// The intent that a record at level 0 with no XP gives rise to: as long
    /// as the user has earned nothing, each of their messages makes sure of
    /// the level-0 role. Granting a role twice changes nothing.
    pub open spec fn first_message_intents(
        self,
        guild_id: Seq<char>,
        user_id: Seq<char>,
    ) -> Seq<IntentModel> {
        if self.level == 0 && self.xp == 0 {
            seq![IntentModel::GrantMilestoneRole { guild_id, user_id, level: 0 }]
        } else {
            Seq::empty()
        }
    }

    /// The intents of a grant: none without a promotion; with one, the
    /// announcement of the new level, followed by its role where the new
    /// level is a milestone.
    pub open spec fn promotion_intents(
        self,
        policy: PolicyModel,
        guild_id: Seq<char>,
        user_id: Seq<char>,
        grant: nat,
    ) -> Seq<IntentModel> {
        let reached = self.level + 1;
        if !self.levels_up(policy.curve, grant) {
            Seq::empty()
        } else if reached % policy.role_step == 0 {
            seq![
                IntentModel::LevelUp { level: reached },
                IntentModel::GrantMilestoneRole { guild_id, user_id, level: reached },
            ]
        } else {
            seq![IntentModel::LevelUp { level: reached }]
        }
    }

    /// All intents of one event on this record.
    pub open spec fn event_intents(
        self,
        policy: PolicyModel,
        guild_id: Seq<char>,
        user_id: Seq<char>,
        event_time: int,
        grant: nat,
    ) -> Seq<IntentModel> {
        if self.cooling(event_time) {
            self.first_message_intents(guild_id, user_id)
        } else {
            self.first_message_intents(guild_id, user_id) + self.promotion_intents(
                policy,
                guild_id,
                user_id,
                grant,
            )
        }
    }
}

/// The state machine as mathematics: the record to persist and the intents,
/// or the reason for which the event is refused.
///
/// An empty identifier is refused before anything else. A stored entry that
/// cannot be read is reported, never replaced. A first sighting creates the
/// record; it is no promotion, and asks only that the user be given the
/// level-0 role.
pub open spec fn activity_model(
    policy: PolicyModel,
    stored: StoredModel,
    guild_id: Seq<char>,
    user_id: Seq<char>,
    username: Seq<char>,
    event_time: int,
    grant: nat,
) -> Result<(ProgressModel, Seq<IntentModel>), EngineError> {
    if guild_id.len() == 0 || user_id.len() == 0 {
        Err(EngineError::InvalidInput)
    } else {
        match stored {
            StoredModel::Corrupt => Err(EngineError::Corruption),
            StoredModel::Absent => Ok(
                (
                    fresh_model(user_id, username, event_time),
                    fresh_model(user_id, username, event_time).first_message_intents(
                        guild_id,
                        user_id,
                    ),
                ),
            ),
            StoredModel::Present(p) => Ok(
                (
                    p.after_event(policy.curve, event_time, grant),
                    p.event_intents(policy, guild_id, user_id, event_time, grant),
                ),
            ),
        }
    }
}

/// The outcome `r` is the one that the model `m` prescribes.
pub open spec fn outcome_matches(
    r: Result<ActivityOutcome, EngineError>,
    m: Result<(ProgressModel, Seq<IntentModel>), EngineError>,
) -> bool {
    match m {
        Ok((progress, intents)) => r matches Ok(o) && o.progress@ == progress && intents_model(
            o.intents@,
        ) == intents,
        Err(e) => r matches Err(f) && f == e,
    }
}

/// Whether `xp` has reached `cost`; a cost beyond every counter is never
/// reached.
fn reaches(cost: Option<u32>, xp: u32) -> (b: bool)
    ensures
        b == (cost matches Some(t) && xp >= t),
{
    match cost {
        Some(t) => xp >= t,
        None => false,
    }
}

/// Applies one activity event, with the XP to grant given by the caller.
///
/// This is the whole state machine; [`record_activity`] differs from it only
/// in drawing the grant itself.
pub fn apply_activity(
    policy: &LevelingPolicy,
    stored: StoredProgress,
    guild_id: &str,
    user_id: &str,
    username: &str,
    event_time: i64,
    grant: u32,
) -> (r: Result<ActivityOutcome, EngineError>)
    ensures
        outcome_matches(
            r,
            activity_model(
                policy@,
                stored@,
                guild_id@,
                user_id@,
                username@,
                event_time as int,
                grant as nat,
            ),
        ),
{
    if guild_id.is_empty() || user_id.is_empty() {
        return Err(EngineError::InvalidInput);
    }
    match stored {
        StoredProgress::Corrupt => Err(EngineError::Corruption),
        StoredProgress::Absent => {
            let mut intents: Vec<Intent> = Vec::new();
            intents.push(
                Intent::GrantMilestoneRole {
                    guild_id: guild_id.to_owned(),
                    user_id: user_id.to_owned(),
                    level: 0,
                },
            );
            let progress = UserProgress::fresh(user_id, username, event_time);
            assert(intents_model(intents@) =~= progress@.first_message_intents(
                guild_id@,
                user_id@,
            ));
            Ok(ActivityOutcome { progress, intents })
        },
        StoredProgress::Present(record) => {
            let ghost before = record@;
            let ghost gid = guild_id@;
            let ghost uid = user_id@;
            let mut progress = record;
            let mut intents: Vec<Intent> = Vec::new();
            if progress.level == 0 && progress.xp == 0 {
                intents.push(
                    Intent::GrantMilestoneRole {
                        guild_id: guild_id.to_owned(),
                        user_id: user_id.to_owned(),
                        level: 0,
                    },
                );
            }
            assert(intents_model(intents@) =~= before.first_message_intents(gid, uid));
            let elapsed: i128 = event_time as i128 - progress.last_activity_time as i128;
            if elapsed <= COOLDOWN_SECONDS as i128 {
                return Ok(ActivityOutcome { progress, intents });
            }
            let curve = policy.curve();
            let step = policy.role_step();
            let start = progress.level;
            progress.xp = progress.xp.saturating_add(grant);
            progress.last_activity_time = event_time;
            let mut cost = curve.threshold(progress.level);
            let ghost first = intents@;
            while reaches(cost, progress.xp)
                invariant
                    curve@ == policy@.curve,
                    curve@.valid(),
                    start == before.level,
                    progress.user_id@ == before.user_id,
                    progress.username@ == before.username,
                    progress.last_activity_time == event_time,
                    match cost {
                        Some(t) => t == curve@.threshold(progress.level as nat),
                        None => curve@.threshold(progress.level as nat) > u32::MAX,
                    },
                    progress.level == start ==> {
                        &&& progress.xp == credited(before.xp, grant as nat)
                        &&& intents@ == first
                    },
                    progress.level != start ==> {
                        &&& before.levels_up(curve@, grant as nat)
                        &&& progress.level == start + 1
                        &&& progress.xp == 0
                        &&& intents@ == first.push(Intent::LevelUp { level: progress.level })
                    },
                decreases progress.xp,
            {
                proof {
                    lemma_threshold_floor(curve@, progress.level as nat);
                }
                progress.xp = 0;
                progress.level = progress.level + 1;
                intents.push(Intent::LevelUp { level: progress.level });
                cost = curve.threshold(progress.level);
            }
            let ghost announced = intents@;
            if progress.level != start && progress.level % step == 0 {
                intents.push(
                    Intent::GrantMilestoneRole {
                        guild_id: guild_id.to_owned(),
                        user_id: user_id.to_owned(),
                        level: progress.level,
                    },
                );
            }
            proof {
                let promoted = before.promotion_intents(policy@, gid, uid, grant as nat);
                assert(intents_model(first) == before.first_message_intents(gid, uid));
                assert(intents_model(intents@) =~= intents_model(first) + promoted);
            }
            Ok(ActivityOutcome { progress, intents })
        },
    }
}

/// Handles one activity event of `user_id` in `guild_id`: draws the XP to
/// grant and runs the state machine on it.
///
/// The outcome is the one that [`apply_activity`] prescribes for some grant
/// within the policy's range.
pub fn record_activity(
    policy: &LevelingPolicy,
    stored: StoredProgress,
    guild_id: &str,
    user_id: &str,
    username: &str,
    event_time: i64,
) -> (r: Result<ActivityOutcome, EngineError>)
    ensures
        exists|grant: nat|
            GRANT_MIN <= grant < GRANT_END && #[trigger] outcome_matches(
                r,
                activity_model(
                    policy@,
                    stored@,
                    guild_id@,
                    user_id@,
                    username@,
                    event_time as int,
                    grant,
                ),
            ),
{
    let grant = grant_amount();
    let r = apply_activity(policy, stored, guild_id, user_id, username, event_time, grant);
    assert(outcome_matches(
        r,
        activity_model(
            policy@,
            stored@,
            guild_id@,
            user_id@,
            username@,
            event_time as int,
            grant as nat,
        ),
    ));
    r
}

/// One event as the state machine sees it: when it came, and the XP drawn
/// for it.
pub struct EventModel {
    pub time: int,
    pub grant: nat,
}

/// The record after each of `events` in turn.
pub open spec fn replay(p: ProgressModel, c: CurveModel, events: Seq<EventModel>) -> ProgressModel
    decreases events.len(),
{
    if events.len() == 0 {
        p
    } else {
        replay(p, c, events.drop_last()).after_event(c, events.last().time, events.last().grant)
    }
}

/// Each event comes more than a cooldown after the one before it, and the
/// first more than a cooldown after the grant recorded at `last`.
pub open spec fn spaced(last: int, events: Seq<EventModel>) -> bool {
    forall|i: int|
        0 <= i < events.len() ==> (#[trigger] events[i]).time - (if i == 0 {
            last
        } else {
            events[i - 1].time
        }) > COOLDOWN_SECONDS
}

/// A grant leaves a record that keeps the invariant, whether or not the
/// record kept it before: the level never falls, and the XP falls only
/// where the level rises.
pub proof fn lemma_grant_progress(p: ProgressModel, c: CurveModel, event_time: int, grant: nat)
    requires
        c.valid(),
        p.xp <= u32::MAX,
    ensures
        p.granted(c, event_time, grant).within(c),
        p.granted(c, event_time, grant).level >= p.level,
        p.granted(c, event_time, grant).level == p.level ==> p.granted(c, event_time, grant).xp
            >= p.xp,
        p.granted(c, event_time, grant).xp <= u32::MAX,
        p.granted(c, event_time, grant).last_activity_time == event_time,
{
    lemma_threshold_floor(c, p.level + 1);
}

proof fn lemma_replay_prefix(p: ProgressModel, c: CurveModel, events: Seq<EventModel>, k: int)
    requires
        0 <= k < events.len(),
    ensures
        replay(p, c, events.take(k + 1)) == replay(p, c, events.take(k)).after_event(
            c,
            events[k].time,
            events[k].grant,
        ),
{
    assert(events.take(k + 1).drop_last() =~= events.take(k));
}

proof fn lemma_replay_clock(p: ProgressModel, c: CurveModel, events: Seq<EventModel>, k: int)
    requires
        c.valid(),
        spaced(p.last_activity_time, events),
        0 <= k <= events.len(),
    ensures
        replay(p, c, events.take(k)).last_activity_time == (if k == 0 {
            p.last_activity_time
        } else {
            events[k - 1].time
        }),
    decreases k,
{
    if k == 0 {
        assert(events.take(0) =~= Seq::<EventModel>::empty());
    } else {
        lemma_replay_clock(p, c, events, k - 1);
        lemma_replay_prefix(p, c, events, k - 1);
        let was = replay(p, c, events.take(k - 1));
        assert(events[k - 1].time - was.last_activity_time > COOLDOWN_SECONDS);
    }
}

/// Over events that each come more than a cooldown after the one before,
/// every event is a grant: after each of them the level is no lower than
/// before, the XP is below the cost of the level, and the XP itself is no
/// lower unless the level rose.
pub proof fn lemma_spaced_events_progress(p: ProgressModel, c: CurveModel, events: Seq<EventModel>)
    requires
        c.valid(),
        p.xp <= u32::MAX,
        spaced(p.last_activity_time, events),
    ensures
        forall|k: int|
            0 <= k < events.len() ==> {
                let was = replay(p, c, events.take(k));
                let now = #[trigger] replay(p, c, events.take(k + 1));
                &&& now.level >= was.level
                &&& now.within(c)
                &&& now.level == was.level ==> now.xp >= was.xp
                &&& now.last_activity_time == events[k].time
            },
{
    assert forall|k: int| 0 <= k < events.len() implies {
        let was = replay(p, c, events.take(k));
        let now = #[trigger] replay(p, c, events.take(k + 1));
        &&& now.level >= was.level
        &&& now.within(c)
        &&& now.level == was.level ==> now.xp >= was.xp
        &&& now.last_activity_time == events[k].time
    } by {
        let was = replay(p, c, events.take(k));
        lemma_replay_clock(p, c, events, k);
        lemma_replay_prefix(p, c, events, k);
        lemma_replay_bounded(p, c, events, k);
        assert(events[k].time - was.last_activity_time > COOLDOWN_SECONDS);
        lemma_grant_progress(was, c, events[k].time, events[k].grant);
    }
}

proof fn lemma_replay_bounded(p: ProgressModel, c: CurveModel, events: Seq<EventModel>, k: int)
    requires
        p.xp <= u32::MAX,
        0 <= k <= events.len(),
    ensures
        replay(p, c, events.take(k)).xp <= u32::MAX,
    decreases k,
{
    if k == 0 {
        assert(events.take(0) =~= Seq::<EventModel>::empty());
    } else {
        lemma_replay_bounded(p, c, events, k - 1);
        lemma_replay_prefix(p, c, events, k - 1);
    }
}

/// Of two events that come within one cooldown of each other, the second
/// changes nothing and asks for no promotion, provided the first one was a
/// grant or the second also falls within the cooldown that was running.
pub proof fn lemma_cooldown_is_noop(
    p: ProgressModel,
    policy: PolicyModel,
    guild_id: Seq<char>,
    user_id: Seq<char>,
    first: EventModel,
    second: EventModel,
)
    requires
        second.time - first.time <= COOLDOWN_SECONDS,
        !p.cooling(first.time) || p.cooling(second.time),
    ensures
        ({
            let mid = p.after_event(policy.curve, first.time, first.grant);
            &&& mid.after_event(policy.curve, second.time, second.grant) == mid
            &&& mid.event_intents(policy, guild_id, user_id, second.time, second.grant)
                == mid.first_message_intents(guild_id, user_id)
        }),
{
}

/// The same for a user whom the first event created: a second event within
/// the cooldown leaves the fresh record as it is.
pub proof fn lemma_cooldown_after_first_sighting(
    policy: PolicyModel,
    guild_id: Seq<char>,
    user_id: Seq<char>,
    username: Seq<char>,
    first: EventModel,
    second: EventModel,
)
    requires
        guild_id.len() > 0,
        user_id.len() > 0,
        second.time - first.time <= COOLDOWN_SECONDS,
    ensures
        ({
            let created = fresh_model(user_id, username, first.time);
            &&& activity_model(
                policy,
                StoredModel::Absent,
                guild_id,
                user_id,
                username,
                first.time,
                first.grant,
            ) == Ok::<(ProgressModel, Seq<IntentModel>), EngineError>(
                (created, created.first_message_intents(guild_id, user_id)),
            )
            &&& activity_model(
                policy,
                StoredModel::Present(created),
                guild_id,
                user_id,
                username,
                second.time,
                second.grant,
            ) matches Ok((after, _)) && after == created
        }),
{
}

} // verus!
