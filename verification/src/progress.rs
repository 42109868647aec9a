//! One user's progress record within one guild.

use crate::clock::unix_now;
use crate::curve::CurveModel;
use crate::error::EngineError;
use vstd::prelude::*;

verus! {

/// A progress record as mathematics.
pub struct ProgressModel {
    pub user_id: Seq<char>,
    pub username: Seq<char>,
    pub level: nat,
    pub xp: nat,
    pub last_activity_time: int,
}

impl ProgressModel {
    /// The record's invariant: the XP has not reached the cost of the
    /// record's level.
    pub open spec fn within(self, c: CurveModel) -> bool {
        self.xp < c.threshold(self.level)
    }
}

/// The record of a user who has just been seen for the first time.
pub open spec fn fresh_model(user_id: Seq<char>, username: Seq<char>, time: int) -> ProgressModel {
    ProgressModel { user_id, username, level: 0, xp: 0, last_activity_time: time }
}

/// One user's progress: identity, level, XP towards the next level, and the
/// Unix time of the last event that earned XP.
#[derive(Clone, Debug, PartialEq, Eq)]
pub struct UserProgress {
    pub user_id: String,
    pub username: String,
    pub level: u32,
    pub xp: u32,
    pub last_activity_time: i64,
}

impl View for UserProgress {
    type V = ProgressModel;

    open spec fn view(&self) -> ProgressModel {
        ProgressModel {
            user_id: self.user_id@,
            username: self.username@,
            level: self.level as nat,
            xp: self.xp as nat,
            last_activity_time: self.last_activity_time as int,
        }
    }
}

impl UserProgress {
    /// The record of a user first seen at `time`: level 0, no XP.
    pub fn fresh(user_id: &str, username: &str, time: i64) -> (p: UserProgress)
        ensures
            p@ == fresh_model(user_id@, username@, time as int),
    {
        UserProgress {
            user_id: user_id.to_owned(),
            username: username.to_owned(),
            level: 0,
            xp: 0,
            last_activity_time: time,
        }
    }

    /// A copy of this record.
    pub fn duplicate(&self) -> (p: UserProgress)
        ensures
            p@ == self@,
    {
        UserProgress {
            user_id: self.user_id.clone(),
            username: self.username.clone(),
            level: self.level,
            xp: self.xp,
            last_activity_time: self.last_activity_time,
        }
    }
}

/// The record that a member is given when the guild is taken stock of: a
/// fresh one stamped 0 for a member who has none yet, and nothing for a
/// member who has one, whose progress is left alone.
pub fn backfill_record(exists: bool, user_id: &str, username: &str) -> (r: Option<UserProgress>)
    ensures
        exists ==> r is None,
        !exists ==> (r matches Some(p) && p@ == fresh_model(user_id@, username@, 0)),
{
    if exists {
        None
    } else {
        Some(UserProgress::fresh(user_id, username, 0))
    }
}

/// What an administrative override writes: the given level with no XP,
/// stamped `now`. A level that is negative, or beyond what a record can
/// hold, is refused.
pub open spec fn override_model(
    user_id: Seq<char>,
    username: Seq<char>,
    level: int,
    now: int,
) -> Result<ProgressModel, EngineError> {
    if 0 <= level <= u32::MAX {
        Ok(ProgressModel { user_id, username, level: level as nat, xp: 0, last_activity_time: now })
    } else {
        Err(EngineError::InvalidInput)
    }
}

/// The record that replaces a user's progress when an administrator sets
/// their level at time `now`.
pub fn override_level(user_id: &str, username: &str, level: i64, now: i64) -> (r: Result<
    UserProgress,
    EngineError,
>)
    ensures
        match override_model(user_id@, username@, level as int, now as int) {
            Ok(m) => r matches Ok(p) && p@ == m,
            Err(e) => r == Err::<UserProgress, EngineError>(e),
        },
{
    if level < 0 || level > u32::MAX as i64 {
        return Err(EngineError::InvalidInput);
    }
    Ok(
        UserProgress {
            user_id: user_id.to_owned(),
            username: username.to_owned(),
            level: level as u32,
            xp: 0,
            last_activity_time: now,
        },
    )
}

/// Sets a user's level as an administrator does: the record with the given
/// level and no XP, stamped with the time of the machine's clock.
pub fn set_level(user_id: &str, username: &str, level: i64) -> (r: Result<
    UserProgress,
    EngineError,
>)
    ensures
        exists|now: int|
            now >= 0 && match #[trigger] override_model(user_id@, username@, level as int, now) {
                Ok(m) => r matches Ok(p) && p@ == m,
                Err(e) => r == Err::<UserProgress, EngineError>(e),
            },
{
    let now = unix_now();
    let r = override_level(user_id, username, level, now);
    assert(match override_model(user_id@, username@, level as int, now as int) {
        Ok(m) => r matches Ok(p) && p@ == m,
        Err(e) => r == Err::<UserProgress, EngineError>(e),
    });
    r
}

} // verus!
