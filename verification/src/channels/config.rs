//! Free-form channel settings: pairs of names and texts.
use vstd::prelude::*;
use crate::text::{nat_at_most, opt_string, parse_nat, same_str};

verus! {

/// The value of a setting; a later pair replaces an earlier one.
pub open spec fn setting(extra: Seq<(String, String)>, key: Seq<char>) -> Option<Seq<char>>
    decreases extra.len(),
{
    if extra.len() == 0 {
        None
    } else if extra.last().0@ == key {
        Some(extra.last().1@)
    } else {
        setting(extra.drop_last(), key)
    }
}

/// The value of a setting, or a default.
pub open spec fn setting_or(
    extra: Seq<(String, String)>,
    key: Seq<char>,
    default: Seq<char>,
) -> Seq<char> {
    match setting(extra, key) {
        Some(v) => v,
        None => default,
    }
}

/// The number that a setting holds, or a default where it is missing or holds
/// no number up to `max`.
pub open spec fn number_or(
    extra: Seq<(String, String)>,
    key: Seq<char>,
    max: nat,
    default: nat,
) -> nat {
    match setting(extra, key) {
        Some(v) => match nat_at_most(v, max) {
            Some(n) => n,
            None => default,
        },
        None => default,
    }
}

/// The value of a setting.
pub fn get_setting(extra: &Vec<(String, String)>, key: &str) -> (r: Option<String>)
    ensures
        opt_string(r) == setting(extra@, key@),
{
    let mut i: usize = extra.len();
    proof {
        assert(extra@.take(extra@.len() as int) =~= extra@);
    }
    while i > 0
        invariant
            i <= extra@.len(),
            setting(extra@, key@) == setting(extra@.take(i as int), key@),
        decreases i,
    {
        proof {
            assert(extra@.take(i as int).drop_last() =~= extra@.take(i - 1));
        }
        i = i - 1;
        if same_str(extra[i].0.as_str(), key) {
            return Some(extra[i].1.clone());
        }
    }
    None
}

/// The value of a setting, or a default.
pub fn get_setting_or(extra: &Vec<(String, String)>, key: &str, default: &str) -> (r: String)
    ensures
        r@ == setting_or(extra@, key@, default@),
{
    match get_setting(extra, key) {
        Some(v) => v,
        None => default.to_owned(),
    }
}

/// The number that a setting holds, or a default.
pub fn get_number_or(extra: &Vec<(String, String)>, key: &str, max: u64, default: u64) -> (r: u64)
    requires
        default <= max,
    ensures
        r as nat == number_or(extra@, key@, max as nat, default as nat),
        r <= max,
{
    match get_setting(extra, key) {
        Some(v) => match parse_nat(v.as_str(), max) {
            Some(n) => n,
            None => default,
        },
        None => default,
    }
}

} // verus!
