//! The names under which new profiles are kept.

use vstd::prelude::*;
use crate::instance::profiles::{ProfilesView, has_key};
use crate::text::{byte_len, decimal, lemma_byte_len_of_parts, lemma_decimal_of_u32};
use crate::text::{lemma_truncated, truncated};

verus! {

/// The longest name under which a profile is kept, in bytes.
pub const PROFILE_NAME_LIMIT: usize = 24;

/// The `n`-th name that is tried for a new profile whose name, cut down to
/// the limit, is `base`: `base` itself for 0, and else `base`, cut down
/// further to leave room for it, with the number `n` behind it.
pub open spec fn candidate_name(base: Seq<char>, n: nat) -> Seq<char> {
    if n == 0 {
        base
    } else {
        let digits = decimal(n);
        let room = if byte_len(digits) <= PROFILE_NAME_LIMIT {
            (PROFILE_NAME_LIMIT - byte_len(digits)) as nat
        } else {
            0
        };
        truncated(base, room) + digits
    }
}

/// A candidate name with a number of 32 bits takes no more bytes than the
/// limit.
pub proof fn lemma_candidate_name(name: Seq<char>, n: u32)
    ensures
        byte_len(candidate_name(truncated(name, PROFILE_NAME_LIMIT as nat), n as nat))
            <= PROFILE_NAME_LIMIT,
{
    let base = truncated(name, PROFILE_NAME_LIMIT as nat);
    lemma_truncated(name, PROFILE_NAME_LIMIT as nat);
    if n > 0 {
        let digits = decimal(n as nat);
        lemma_decimal_of_u32(n);
        let room = (PROFILE_NAME_LIMIT - byte_len(digits)) as nat;
        lemma_truncated(base, room);
        lemma_byte_len_of_parts(truncated(base, room), digits);
    }
}

/// The first number from `n` up to 2^32 - 1 whose candidate name no profile
/// has.
pub open spec fn free_candidate(profiles: ProfilesView, base: Seq<char>, n: nat) -> Option<nat>
    decreases u32::MAX + 1 - n,
{
    if n > u32::MAX {
        None
    } else if !has_key(profiles, candidate_name(base, n)) {
        Some(n)
    } else {
        free_candidate(profiles, base, n + 1)
    }
}

} // verus!
