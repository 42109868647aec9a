//! The constants of the XP policy, the random grant, and the settings that
//! one engine runs with.

use crate::curve::{CurveModel, XpCurve};
use rand::Rng;
use vstd::prelude::*;

verus! {

/// The least XP that one qualifying message earns.
pub const GRANT_MIN: u32 = 10;

/// One more than the most XP that one qualifying message earns.
pub const GRANT_END: u32 = 20;

/// A user earns XP again only once more than this many seconds have passed
/// since the last grant.
pub const COOLDOWN_SECONDS: i64 = 60;

/// The distance between two milestones of the standard role ladder.
pub const STANDARD_ROLE_STEP: u32 = 5;

/// The highest milestone of the standard role ladder.
pub const STANDARD_MAX_LEVEL: u32 = 50;

/// Draws from the thread's generator with `rand::Rng::gen_range`: the result
/// lies in `low..high`, whatever the generator does. Nothing is claimed of
/// the distribution, and two draws may differ.
#[verifier::external_body]
fn sample_between(low: u32, high: u32) -> (r: u32)
    requires
        low < high,
    ensures
        low <= r < high,
{
    rand::thread_rng().gen_range(low..high)
}

/// The XP awarded for one qualifying message, drawn afresh at every call.
pub fn grant_amount() -> (g: u32)
    ensures
        GRANT_MIN <= g < GRANT_END,
{
    sample_between(GRANT_MIN, GRANT_END)
}

/// The settings of an engine as mathematics.
pub struct PolicyModel {
    pub curve: CurveModel,
    pub role_step: nat,
}

impl PolicyModel {
    pub open spec fn valid(self) -> bool {
        self.curve.valid() && self.role_step >= 1
    }
}

/// The settings that one engine runs with: the curve, and the distance
/// between two milestone roles.
pub struct LevelingPolicy {
    curve: XpCurve,
    role_step: u32,
}

impl View for LevelingPolicy {
    type V = PolicyModel;

    closed spec fn view(&self) -> PolicyModel {
        PolicyModel { curve: self.curve@, role_step: self.role_step as nat }
    }
}

impl LevelingPolicy {
    /// The settings are valid: the curve rises and the step is positive.
    #[verifier::type_invariant]
    pub open spec fn inv(self) -> bool {
        self@.valid()
    }

    /// Settings with the given curve and role step; `None` for a step of 0.
    pub fn new(curve: XpCurve, role_step: u32) -> (r: Option<LevelingPolicy>)
        ensures
            r is Some <==> role_step >= 1,
            r matches Some(p) ==> p@ == (PolicyModel {
                curve: curve@,
                role_step: role_step as nat,
            }),
    {
        proof {
            use_type_invariant(&curve);
        }
        if role_step >= 1 {
            Some(LevelingPolicy { curve, role_step })
        } else {
            None
        }
    }

    /// The standard curve with a role every five levels.
    pub fn standard() -> (p: LevelingPolicy)
        ensures
            p@ == (PolicyModel {
                curve: crate::curve::curve_model(100, 13, 10),
                role_step: STANDARD_ROLE_STEP as nat,
            }),
    {
        let curve = XpCurve::standard();
        proof {
            use_type_invariant(&curve);
        }
        LevelingPolicy { curve, role_step: STANDARD_ROLE_STEP }
    }

    /// The curve of these settings.
    pub fn curve(&self) -> (c: &XpCurve)
        ensures
            c@ == self@.curve,
            self@.valid(),
    {
        proof {
            use_type_invariant(self);
        }
        &self.curve
    }

    /// The distance between two milestone roles.
    pub fn role_step(&self) -> (s: u32)
        ensures
            s == self@.role_step,
            s >= 1,
    {
        proof {
            use_type_invariant(self);
        }
        self.role_step
    }
}

} // verus!
