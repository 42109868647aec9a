//! The typed edge of the per-guild store: the reserved key of the role map
//! and the text form in which the map is kept.
//!
//! The store itself lives outside the engine. What is here turns the text
//! kept under the reserved key into a [`RoleMap`] and back, and makes sure
//! that what is written reads back as the map it was written from.

use crate::error::EngineError;
use crate::ladder::{table_model, RoleMap};
use nanoserde::{DeJson, DeJsonErr, SerJson};
use std::collections::HashMap;
use vstd::prelude::*;
use vstd::set_lib::lemma_subset_equality;
use vstd::std_specs::iter::IteratorSpec;

verus! {

/// The error with which nanoserde refuses a text.
#[verifier::external_type_specification]
#[verifier::external_body]
pub struct ExDeJsonErr(DeJsonErr);

/// The table that nanoserde reads from `text` as a map from `u32` to
/// string, or `None` where it refuses the text.
pub uninterp spec fn parsed_role_table(text: Seq<char>) -> Option<Map<u32, Seq<char>>>;

/// Calls nanoserde's `DeJson::deserialize_json` for `HashMap<u32, String>`.
/// The parser reads nothing but the text, so its answer is named after the
/// text alone: a table where it accepts the text, its error where it does
/// not.
#[verifier::external_body]
fn read_role_table(text: &str) -> (r: Result<HashMap<u32, String>, DeJsonErr>)
    ensures
        match r {
            Ok(table) => parsed_role_table(text@) == Some(table_model(table@)),
            Err(_) => parsed_role_table(text@) is None,
        },
{
    HashMap::<u32, String>::deserialize_json(text)
}

/// Calls nanoserde's `SerJson::serialize_json` for `HashMap<u32, String>`.
/// The entries are written in the order in which the hash map walks them,
/// which differs from run to run, so nothing is claimed of the text.
#[verifier::external_body]
fn write_role_table(table: &HashMap<u32, String>) -> (text: String) {
    table.serialize_json()
}

/// The key under which a guild's map from milestone to role is kept. No
/// user's progress may be stored under it.
pub fn role_map_key() -> (key: &'static str)
    ensures
        key@ == seq!['r', 'o', 'l', 'e', 's'],
{
    proof {
        reveal_strlit("roles");
    }
    let key = "roles";
    assert(key@ =~= seq!['r', 'o', 'l', 'e', 's']);
    key
}

/// Whether `key` is the reserved key of the role map.
pub fn is_role_map_key(key: &str) -> (b: bool)
    ensures
        b == (key@ == seq!['r', 'o', 'l', 'e', 's']),
{
    let reserved = role_map_key().to_owned();
    key.to_owned() == reserved
}

/// Reads a stored role map back. Text that is not a map from milestone to
/// role identifier is reported as corrupt.
pub fn decode_role_map(text: &str) -> (r: Result<RoleMap, EngineError>)
    ensures
        match parsed_role_table(text@) {
            Some(model) => r matches Ok(map) && map@ == model,
            None => r matches Err(e) && e == EngineError::Corruption,
        },
{
    match read_role_table(text) {
        Ok(table) => Ok(RoleMap::from_table(table)),
        Err(_) => Err(EngineError::Corruption),
    }
}

/// Whether two tables hold the same milestones with the same identifiers.
fn same_table(a: &HashMap<u32, String>, b: &HashMap<u32, String>) -> (same: bool)
    ensures
        same == (table_model(a@) == table_model(b@)),
{
    broadcast use vstd::std_specs::hash::group_hash_axioms;

    assert(table_model(a@).dom() =~= a@.dom());
    assert(table_model(b@).dom() =~= b@.dom());
    if a.len() != b.len() {
        return false;
    }
    for pair in it: a.iter()
        invariant
            a@.dom().len() == b@.dom().len(),
            forall|i: int|
                0 <= i < it.seq().len() ==> a@.contains_key(*(#[trigger] it.seq()[i]).0) && a@[*it.seq()[i].0]
                    == *it.seq()[i].1,
            forall|k: u32| #[trigger] a@.contains_key(k) ==> it.seq().contains((&k, &a@[k])),
            forall|i: int|
                0 <= i < it.index() ==> b@.contains_key(*(#[trigger] it.seq()[i]).0) && b@[*it.seq()[i].0]@
                    == (*it.seq()[i].1)@,
    {
        let (milestone, id) = pair;
        match b.get(milestone) {
            Some(other) => {
                if *other != *id {
                    assert(table_model(a@)[*milestone] != table_model(b@)[*milestone]);
                    return false;
                }
            },
            None => {
                assert(table_model(a@).contains_key(*milestone));
                assert(!table_model(b@).contains_key(*milestone));
                return false;
            },
        }
    }
    proof {
        let seen = a.iter().remaining();
        assert forall|k: u32| a@.contains_key(k) implies b@.contains_key(k) && a@[k]@ == b@[k]@ by {
            assert(seen.contains((&k, &a@[k])));
            let i = choose|i: int| 0 <= i < seen.len() && seen[i] == (&k, &a@[k]);
            assert(*seen[i].0 == k);
        }
        assert(a@.dom().subset_of(b@.dom()));
        lemma_subset_equality(a@.dom(), b@.dom());
        assert(table_model(a@) =~= table_model(b@));
    }
    true
}

/// Accepts `text` as the stored form of `map` exactly where it reads back
/// as `map`.
pub fn check_encoding(map: &RoleMap, text: String) -> (r: Result<String, EngineError>)
    ensures
        match r {
            Ok(kept) => kept@ == text@ && parsed_role_table(text@) == Some(map@),
            Err(e) => e == EngineError::Corruption && parsed_role_table(text@) != Some(map@),
        },
{
    match read_role_table(text.as_str()) {
        Ok(table) => {
            if same_table(map.table(), &table) {
                Ok(text)
            } else {
                Err(EngineError::Corruption)
            }
        },
        Err(_) => Err(EngineError::Corruption),
    }
}

/// The text under which `map` is stored. It is handed out only once it has
/// been read back and found to give `map` again.
pub fn encode_role_map(map: &RoleMap) -> (r: Result<String, EngineError>)
    ensures
        match r {
            Ok(text) => parsed_role_table(text@) == Some(map@),
            Err(e) => e == EngineError::Corruption,
        },
{
    let text = write_role_table(map.table());
    check_encoding(map, text)
}

} // verus!
