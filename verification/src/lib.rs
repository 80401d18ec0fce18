//! Exhaustive keyspace search: recovers a plaintext whose digest, or whose
//! stored password-hash record, matches a known target.
//!
//! Candidate strings of each length over a fixed alphabet are numbered
//! densely ([`alphabet`]), the index space is tiled into bounded work
//! batches ([`planner`]), each batch is verified in parallel against a
//! pluggable match predicate ([`executor`], [`matcher`]), and the run walks
//! lengths in order until the first match or exhaustion ([`orchestrator`]).
//! The digest and password-hash primitives themselves are outside
//! collaborators, reached through a few trusted declarations in [`hashes`].

use vstd::prelude::*;

pub mod alphabet;
pub mod hashes;
pub mod matcher;
pub mod executor;
pub mod orchestrator;
pub mod planner;

pub use crate::alphabet::Alphabet;
pub use crate::executor::{check_index, search_batch, search_indices};
pub use crate::hashes::{hash_md5, hash_sha1, verify_bcrypt};
pub use crate::matcher::{Verifier, VerifyStrategy};
pub use crate::orchestrator::{search, ConfigError, SearchConfig, SearchResult};
pub use crate::planner::{Batch, BatchPlanner};

verus! {

/// `base` raised to `exp`, the size of the keyspace of strings of
/// length `exp` over an alphabet of `base` symbols.
pub open spec fn pow_nat(base: nat, exp: nat) -> nat
    decreases exp,
{
    if exp == 0 {
        1
    } else {
        base * pow_nat(base, (exp - 1) as nat)
    }
}

/// `base ^ exp` without overflow: `None` exactly when the value does not
/// fit in a `u64`.
pub fn checked_pow_u64(base: u64, exp: usize) -> (r: Option<u64>)
    ensures
        match r {
            Some(v) => v as nat == pow_nat(base as nat, exp as nat),
            None => pow_nat(base as nat, exp as nat) > u64::MAX,
        },
{
    let mut acc: u64 = 1;
    let mut i: usize = 0;
    while i < exp
        invariant
            i <= exp,
            acc as nat == pow_nat(base as nat, i as nat),
        decreases exp - i,
    {
        proof {
            lemma_pow_nat_step(base as nat, i as nat);
        }
        match acc.checked_mul(base) {
            Some(next) => {
                acc = next;
            }
            None => {
                proof {
                    lemma_pow_nat_mono(base as nat, (i + 1) as nat, exp as nat);
                }
                return None;
            }
        }
        i = i + 1;
    }
    Some(acc)
}

/// A power of a positive base is positive.
pub proof fn lemma_pow_nat_pos(b: nat, e: nat)
    requires
        b >= 1,
    ensures
        pow_nat(b, e) >= 1,
    decreases e,
{
    if e > 0 {
        lemma_pow_nat_pos(b, (e - 1) as nat);
        assert(pow_nat(b, e) == b * pow_nat(b, (e - 1) as nat));
        assert(b * pow_nat(b, (e - 1) as nat) >= 1) by (nonlinear_arith)
            requires
                b >= 1,
                pow_nat(b, (e - 1) as nat) >= 1,
        ;
    }
}

/// Peeling a factor off the exponent from the right:
/// `b^(e+1) == b^e * b`.
pub proof fn lemma_pow_nat_step(b: nat, e: nat)
    ensures
        pow_nat(b, e + 1) == pow_nat(b, e) * b,
{
    assert(pow_nat(b, e + 1) == b * pow_nat(b, e));
    assert(b * pow_nat(b, e) == pow_nat(b, e) * b) by (nonlinear_arith);
}

/// Powers of a positive base grow with the exponent.
pub proof fn lemma_pow_nat_mono(b: nat, e1: nat, e2: nat)
    requires
        b >= 1,
        e1 <= e2,
    ensures
        pow_nat(b, e1) <= pow_nat(b, e2),
    decreases e2,
{
    if e1 < e2 {
        lemma_pow_nat_mono(b, e1, (e2 - 1) as nat);
        lemma_pow_nat_step(b, (e2 - 1) as nat);
        assert(pow_nat(b, (e2 - 1) as nat) * 1 <= pow_nat(b, (e2 - 1) as nat) * b)
            by (nonlinear_arith)
            requires b >= 1;
    }
}

} // verus!
