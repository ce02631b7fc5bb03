//! Decoding of the serialized JSON columns.
//!
//! Buff, debuff, skill and statistics maps are stored as JSON text. The store
//! reads three things out of them: whole maps keyed by numeric identifiers,
//! the boolean raid-clear flag inside the miscellaneous metadata, and the
//! damage-per-second number inside the serialized damage statistics. The JSON
//! work itself is done by an outside codec behind the trusted items below;
//! everything around them — the leniency defaults and the backfill rules —
//! is verified.

use vstd::prelude::*;

verus! {

/// What the JSON codec yields for a serialized map keyed by unsigned numbers:
/// the entries in ascending key order, each value re-serialized as text, or
/// nothing if the text is not such a map. A function of the text alone.
pub uninterp spec fn json_u64_object(s: Seq<char>) -> Option<Seq<(u64, Seq<char>)>>;

/// What reading a boolean field of a JSON object yields: the field's value,
/// or nothing if the text is not an object or the field is not a boolean.
/// A function of the text and the key alone.
pub uninterp spec fn json_bool_field(s: Seq<char>, key: Seq<char>) -> Option<bool>;

/// What reading an unsigned-number field of a JSON object yields.
/// A function of the text and the key alone.
pub uninterp spec fn json_u64_field(s: Seq<char>, key: Seq<char>) -> Option<u64>;

/// Relies on `serde_json::from_str` into a map keyed by `u64` and on
/// `serde_json::Value::to_string`: parses the text as a JSON object with
/// unsigned-integer keys and hands each entry back with its value
/// re-serialized; the result depends on the text alone, and an empty text is
/// not valid JSON.
#[verifier::external_body]
fn parse_u64_object(s: &str) -> (r: Option<Vec<(u64, String)>>)
    ensures
        r is Some <==> json_u64_object(s@) is Some,
        r matches Some(v) ==> Some(v@.map_values(|e: (u64, String)| (e.0, e.1@)))
            == json_u64_object(s@),
        s@.len() == 0 ==> r is None,
{
    let map: std::collections::BTreeMap<u64, serde_json::Value> = match serde_json::from_str(s) {
        Ok(m) => m,
        Err(_) => return None,
    };
    Some(map.into_iter().map(|(k, v)| (k, v.to_string())).collect())
}

/// Relies on `serde_json::from_str`, `serde_json::Value::get` and
/// `serde_json::Value::as_bool`: reads one boolean field of a JSON object;
/// the result depends on the text and the key alone.
#[verifier::external_body]
fn get_bool_field(s: &str, key: &str) -> (r: Option<bool>)
    ensures
        r == json_bool_field(s@, key@),
{
    let v: serde_json::Value = match serde_json::from_str(s) {
        Ok(v) => v,
        Err(_) => return None,
    };
    v.get(key).and_then(|f| f.as_bool())
}

/// Relies on `serde_json::from_str`, `serde_json::Value::get` and
/// `serde_json::Value::as_u64`: reads one unsigned-number field of a JSON
/// object; the result depends on the text and the key alone.
#[verifier::external_body]
fn get_u64_field(s: &str, key: &str) -> (r: Option<u64>)
    ensures
        r == json_u64_field(s@, key@),
{
    let v: serde_json::Value = match serde_json::from_str(s) {
        Ok(v) => v,
        Err(_) => return None,
    };
    v.get(key).and_then(|f| f.as_u64())
}

/// What a stored identifier-keyed map column decodes to: its entries, or the
/// empty map for text that does not parse — a malformed or absent column
/// never fails the surrounding read.
pub open spec fn spec_decode_id_map(s: Seq<char>) -> Seq<(u64, Seq<char>)> {
    match json_u64_object(s) {
        Some(m) => m,
        None => Seq::empty(),
    }
}

/// Decode a stored identifier-keyed map column leniently.
pub fn decode_id_map(s: &str) -> (r: Vec<(u64, String)>)
    ensures
        r@.map_values(|e: (u64, String)| (e.0, e.1@)) == spec_decode_id_map(s@),
        s@.len() == 0 ==> r@.len() == 0,
{
    match parse_u64_object(s) {
        Some(v) => v,
        None => {
            let empty: Vec<(u64, String)> = Vec::new();
            proof {
                assert(empty@.map_values(|e: (u64, String)| (e.0, e.1@)) =~= Seq::empty());
            }
            empty
        },
    }
}

/// The cleared backfill rule: an explicitly stored value wins; a missing one
/// is derived from the raid-clear flag inside the serialized miscellaneous
/// metadata, defaulting to false.
pub open spec fn spec_backfill_cleared(cleared: Option<bool>, misc: Seq<char>) -> bool {
    match cleared {
        Some(b) => b,
        None => match json_bool_field(misc, "raidClear"@) {
            Some(b) => b,
            None => false,
        },
    }
}

/// Derive the canonical `cleared` flag of a row, as the one-time migration
/// backfill does.
pub fn backfill_cleared(cleared: Option<bool>, misc: &str) -> (r: bool)
    ensures
        r == spec_backfill_cleared(cleared, misc@),
{
    match cleared {
        Some(b) => b,
        None => match get_bool_field(misc, "raidClear") {
            Some(b) => b,
            None => false,
        },
    }
}

/// The entity damage-per-second backfill rule: an explicitly stored value
/// wins; a missing one is derived from the serialized damage statistics,
/// defaulting to zero.
pub open spec fn spec_backfill_dps(dps: Option<u64>, damage_stats: Seq<char>) -> u64 {
    match dps {
        Some(d) => d,
        None => match json_u64_field(damage_stats, "dps"@) {
            Some(d) => d,
            None => 0,
        },
    }
}

/// Derive the canonical `dps` column of an entity row, as the one-time
/// migration backfill does.
pub fn backfill_dps(dps: Option<u64>, damage_stats: &str) -> (r: u64)
    ensures
        r == spec_backfill_dps(dps, damage_stats@),
{
    match dps {
        Some(d) => d,
        None => match get_u64_field(damage_stats, "dps") {
            Some(d) => d,
            None => 0,
        },
    }
}

/// The data backfills are idempotent: once a row carries a backfilled value,
/// running the backfill again leaves it untouched.
pub proof fn lemma_backfill_idempotent(
    cleared: Option<bool>,
    misc: Seq<char>,
    dps: Option<u64>,
    damage_stats: Seq<char>,
)
    ensures
        spec_backfill_cleared(Some(spec_backfill_cleared(cleared, misc)), misc)
            == spec_backfill_cleared(cleared, misc),
        spec_backfill_dps(Some(spec_backfill_dps(dps, damage_stats)), damage_stats)
            == spec_backfill_dps(dps, damage_stats),
{
}

} // verus!
