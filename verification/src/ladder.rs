//! The role ladder: its milestones, the names of its roles, and the map
//! from milestone to role identifier that a guild keeps once the ladder is
//! provisioned.

use std::collections::HashMap;
use vstd::prelude::*;
use vstd::string::StringExecFns;

verus! {

/// The milestones up to `limit`: every multiple of `step` from 0 to `limit`,
/// ascending.
pub open spec fn milestones_model(limit: nat, step: nat) -> Seq<nat> {
    Seq::new(limit / step + 1, |i: int| (i * step) as nat)
}

/// The milestones that a user at `limit` has passed, or that a ladder up to
/// `limit` holds: 0, `step`, `2 * step`, ... as far as `limit`.
pub fn milestones_up_to(limit: u32, step: u32) -> (out: Vec<u32>)
    requires
        step >= 1,
    ensures
        out@.map_values(|m: u32| m as nat) == milestones_model(limit as nat, step as nat),
{
    let mut out: Vec<u32> = Vec::new();
    let mut next: u32 = 0;
    let ghost want = milestones_model(limit as nat, step as nat);
    loop
        invariant_except_break
            step >= 1,
            want == milestones_model(limit as nat, step as nat),
            next <= limit,
            next == out@.len() * step,
            out@.len() < want.len(),
            forall|i: int| 0 <= i < out@.len() ==> out@[i] == want[i],
        ensures
            out@.len() == want.len(),
            forall|i: int| 0 <= i < out@.len() ==> out@[i] == want[i],
        decreases limit - next,
    {
        let ghost k = out@.len() as int;
        out.push(next);
        proof {
            assert(want[k] == k * step);
        }
        if limit - next < step {
            proof {
                let l = limit as int;
                let s = step as int;
                assert(l / s == k) by (nonlinear_arith)
                    requires
                        k * s <= l,
                        l - k * s < s,
                        s >= 1,
                        k >= 0,
                ;
            }
            break ;
        }
        next = next + step;
        proof {
            let l = limit as int;
            let s = step as int;
            assert((k + 1) * s == k * s + s) by (nonlinear_arith);
            assert(l / s >= k + 1) by (nonlinear_arith)
                requires
                    (k + 1) * s <= l,
                    s >= 1,
            ;
        }
    }
    assert(out@.map_values(|m: u32| m as nat) =~= want);
    out
}

/// The character of one decimal digit.
pub open spec fn digit_char(d: nat) -> char {
    if d == 0 {
        '0'
    } else if d == 1 {
        '1'
    } else if d == 2 {
        '2'
    } else if d == 3 {
        '3'
    } else if d == 4 {
        '4'
    } else if d == 5 {
        '5'
    } else if d == 6 {
        '6'
    } else if d == 7 {
        '7'
    } else if d == 8 {
        '8'
    } else {
        '9'
    }
}

/// `n` written in decimal, without leading zeros.
pub open spec fn decimal_model(n: nat) -> Seq<char>
    decreases n,
{
    if n < 10 {
        seq![digit_char(n)]
    } else {
        decimal_model(n / 10).push(digit_char(n % 10))
    }
}

/// The name of the role of a milestone: `Level `, then the milestone in
/// decimal.
pub open spec fn role_name_model(milestone: nat) -> Seq<char> {
    seq!['L', 'e', 'v', 'e', 'l', ' '] + decimal_model(milestone)
}

fn digit_text(d: u32) -> (s: &'static str)
    requires
        d < 10,
    ensures
        s@ == seq![digit_char(d as nat)],
{
    proof {
        reveal_strlit("0");
        reveal_strlit("1");
        reveal_strlit("2");
        reveal_strlit("3");
        reveal_strlit("4");
        reveal_strlit("5");
        reveal_strlit("6");
        reveal_strlit("7");
        reveal_strlit("8");
        reveal_strlit("9");
    }
    let s = match d {
        0 => "0",
        1 => "1",
        2 => "2",
        3 => "3",
        4 => "4",
        5 => "5",
        6 => "6",
        7 => "7",
        8 => "8",
        _ => "9",
    };
    assert(s@ =~= seq![digit_char(d as nat)]);
    s
}

fn append_decimal(out: &mut String, n: u32)
    ensures
        final(out)@ == old(out)@ + decimal_model(n as nat),
    decreases n,
{
    if n >= 10 {
        append_decimal(out, n / 10);
    }
    out.append(digit_text(n % 10));
    assert(out@ =~= old(out)@ + decimal_model(n as nat));
}

/// The name under which the role of `milestone` is created.
pub fn role_name(milestone: u32) -> (name: String)
    ensures
        name@ == role_name_model(milestone as nat),
{
    proof {
        reveal_strlit("Level ");
    }
    let mut name = "Level ".to_owned();
    assert(name@ =~= seq!['L', 'e', 'v', 'e', 'l', ' ']);
    append_decimal(&mut name, milestone);
    name
}

/// A table from milestone to role identifier as mathematics.
pub open spec fn table_model(table: Map<u32, String>) -> Map<u32, Seq<char>> {
    table.map_values(|id: String| id@)
}

/// One rung of a ladder: a milestone and the identifier of its role.
#[derive(Clone, Debug, PartialEq, Eq)]
pub struct RoleEntry {
    pub milestone: u32,
    pub role_id: String,
}

/// The map from milestone to role identifier of one guild.
///
/// A map is made whole, by provisioning or by reading a stored one back, and
/// never edited afterwards.
pub struct RoleMap {
    table: HashMap<u32, String>,
}

impl View for RoleMap {
    type V = Map<u32, Seq<char>>;

    closed spec fn view(&self) -> Map<u32, Seq<char>> {
        table_model(self.table@)
    }
}

impl RoleMap {
    /// The map that holds `table`.
    pub fn from_table(table: HashMap<u32, String>) -> (map: RoleMap)
        ensures
            map@ == table_model(table@),
    {
        RoleMap { table }
    }

    /// The table inside this map.
    pub fn table(&self) -> (table: &HashMap<u32, String>)
        ensures
            table_model(table@) == self@,
    {
        &self.table
    }

    /// The number of milestones in the map.
    pub fn len(&self) -> (n: usize)
        ensures
            n == self@.dom().len(),
            self@.dom().finite(),
    {
        broadcast use vstd::std_specs::hash::group_hash_axioms;

        assert(self@.dom() =~= self.table@.dom());
        self.table.len()
    }

    /// The identifier of the role of `milestone`, if the ladder has that
    /// milestone.
    pub fn role_for(&self, milestone: u32) -> (r: Option<String>)
        ensures
            match r {
                Some(id) => self@.contains_key(milestone) && id@ == self@[milestone],
                None => !self@.contains_key(milestone),
            },
    {
        broadcast use vstd::std_specs::hash::group_hash_axioms;

        match self.table.get(&milestone) {
            Some(id) => Some(id.clone()),
            None => None,
        }
    }

    /// Every rung of the ladder, each milestone once, in no particular
    /// order.
    pub fn entries(&self) -> (out: Vec<RoleEntry>)
        ensures
            out@.len() == self@.dom().len(),
            forall|i: int|
                0 <= i < out@.len() ==> self@.contains_key((#[trigger] out@[i]).milestone)
                    && self@[out@[i].milestone] == out@[i].role_id@,
            forall|i: int, j: int|
                0 <= i < j < out@.len() ==> out@[i].milestone != out@[j].milestone,
    {
        broadcast use vstd::std_specs::hash::group_hash_axioms;

        assert(self@.dom() =~= self.table@.dom());
        let mut out: Vec<RoleEntry> = Vec::new();
        for pair in it: self.table.iter()
            invariant
                out@.len() == it.index(),
                it.seq().no_duplicates(),
                forall|i: int|
                    0 <= i < it.seq().len() ==> self.table@.contains_key(
                        *(#[trigger] it.seq()[i]).0,
                    ) && self.table@[*it.seq()[i].0] == *it.seq()[i].1,
                forall|i: int|
                    0 <= i < out@.len() ==> (#[trigger] out@[i]).milestone == *it.seq()[i].0
                        && out@[i].role_id@ == (*it.seq()[i].1)@,
                forall|i: int, j: int|
                    0 <= i < j < out@.len() ==> out@[i].milestone != out@[j].milestone,
        {
            let (milestone, role_id) = pair;
            proof {
                let n = out@.len() as int;
                assert forall|i: int| 0 <= i < n implies out@[i].milestone != *milestone by {
                    if out@[i].milestone == *milestone {
                        assert(it.seq()[i] == it.seq()[n]);
                    }
                }
            }
            out.push(RoleEntry { milestone: *milestone, role_id: role_id.clone() });
        }
        out
    }
}

} // verus!
