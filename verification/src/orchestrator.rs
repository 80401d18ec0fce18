use vstd::prelude::*;
use crate::{checked_pow_u64, lemma_pow_nat_mono, pow_nat};
use crate::alphabet::{
    alphabet_wf, ascii_chars, ascii_to_string, decode_seq, lemma_decode_ascii, Alphabet,
};
use crate::executor::search_batch;
use crate::matcher::{digest_matches, target_wf, Verifier, VerifyStrategy};
use crate::planner::BatchPlanner;

verus! {

/// The run-specific parameters of one search, fixed before it starts.
pub struct SearchConfig {
    /// The target: a lowercase hex digest for a fast strategy, a stored
    /// password-hash record for the slow one.
    pub target: String,
    /// The ordered candidate symbols.
    pub alphabet: Vec<u8>,
    /// Candidate lengths 1 through this one are searched, in order.
    pub max_length: usize,
    /// How many indices one work batch holds, at most.
    pub batch_size: usize,
    /// How the target is compared against a candidate.
    pub strategy: VerifyStrategy,
    /// How many parallel workers verify a batch; 0 picks a default.
    pub worker_count: usize,
    /// Whether the caller wants batch index generation handed to a device;
    /// outcome-neutral: it never changes what is found.
    pub use_device_assist: bool,
}

/// The terminal value of a whole run.
#[derive(Debug, PartialEq)]
pub enum SearchResult {
    Found(String),
    Exhausted,
}

/// A fatal configuration fault, detected before any search work begins.
#[derive(Debug, Clone, Copy, PartialEq, Eq, Structural)]
pub enum ConfigError {
    /// Fewer than two symbols, a repeated symbol, or a non-ASCII byte.
    InvalidAlphabet,
    ZeroMaxLength,
    ZeroBatchSize,
    /// The keyspace of the longest length outgrows the 64-bit index space.
    KeyspaceTooLarge,
    /// The target does not have the form its strategy requires.
    MalformedTarget,
}

impl ConfigError {
    /// The human-readable cause, for the run's final report.
    pub fn describe(&self) -> (r: String)
        ensures
            r@ == match *self {
                ConfigError::InvalidAlphabet => "alphabet must hold at least two distinct ASCII symbols"@,
                ConfigError::ZeroMaxLength => "maximum candidate length must be at least 1"@,
                ConfigError::ZeroBatchSize => "batch size must be at least 1"@,
                ConfigError::KeyspaceTooLarge => "keyspace exceeds the 64-bit index space"@,
                ConfigError::MalformedTarget => "target does not have the form its strategy requires"@,
            },
    {
        match self {
            ConfigError::InvalidAlphabet => "alphabet must hold at least two distinct ASCII symbols".to_owned(),
            ConfigError::ZeroMaxLength => "maximum candidate length must be at least 1".to_owned(),
            ConfigError::ZeroBatchSize => "batch size must be at least 1".to_owned(),
            ConfigError::KeyspaceTooLarge => "keyspace exceeds the 64-bit index space".to_owned(),
            ConfigError::MalformedTarget => "target does not have the form its strategy requires".to_owned(),
        }
    }
}

/// All the checks a run makes before its first candidate.
pub open spec fn config_ok(cfg: SearchConfig) -> bool {
    &&& alphabet_wf(cfg.alphabet@)
    &&& cfg.max_length >= 1
    &&& cfg.batch_size >= 1
    &&& pow_nat(cfg.alphabet@.len() as nat, cfg.max_length as nat) <= u64::MAX
    &&& target_wf(cfg.strategy, cfg.target@)
}

/// Whether some candidate of length 1 through `max_length` over `alphabet`
/// matches the target: the fact that decides `Found` against `Exhausted`.
pub open spec fn keyspace_has_match(
    alphabet: Seq<u8>,
    strategy: VerifyStrategy,
    target: Seq<char>,
    max_length: nat,
) -> bool {
    exists|l: nat, i: nat|
        1 <= l <= max_length && i < pow_nat(alphabet.len() as nat, l) && digest_matches(
            strategy,
            target,
            #[trigger] decode_seq(alphabet, i, l),
        )
}

pub open spec fn cfg_has_match(cfg: SearchConfig) -> bool {
    keyspace_has_match(cfg.alphabet@, cfg.strategy, cfg.target@, cfg.max_length as nat)
}

/// Whether the result is `Found` or `Exhausted` depends only on the
/// alphabet, the strategy, the target and the length bound: two runs that
/// agree on those — whatever their worker count, batch size or device
/// assist — have a match to find, or not, together.
pub proof fn lemma_outcome_ignores_scheduling(c1: SearchConfig, c2: SearchConfig)
    requires
        c1.alphabet@ == c2.alphabet@,
        c1.strategy == c2.strategy,
        c1.target@ == c2.target@,
        c1.max_length == c2.max_length,
    ensures
        cfg_has_match(c1) == cfg_has_match(c2),
{
}

/// A byte-for-byte copy.
fn copy_bytes(v: &Vec<u8>) -> (r: Vec<u8>)
    ensures
        r@ == v@,
{
    let mut out: Vec<u8> = Vec::new();
    let n = v.len();
    let mut i: usize = 0;
    while i < n
        invariant
            n == v@.len(),
            i <= n,
            out@ == v@.take(i as int),
        decreases n - i,
    {
        out.push(v[i]);
        proof {
            assert(out@ =~= v@.take(i + 1));
        }
        i = i + 1;
    }
    proof {
        assert(v@.take(n as int) =~= v@);
    }
    out
}

/// Searches every index of one candidate length, batch by batch: the
/// matching candidate's bytes, or `None` exactly when no index of
/// `[0, total)` decodes to a matching candidate.
fn search_length(
    a: &Alphabet,
    v: &Verifier,
    length: usize,
    total: u64,
    batch_size: u64,
    workers: usize,
) -> (r: Option<Vec<u8>>)
    requires
        a.wf(),
        total as nat == pow_nat(a.base(), length as nat),
        1 <= batch_size <= usize::MAX,
    ensures
        match r {
            Some(c) => exists|i: nat|
                i < total && c@ == #[trigger] a.spec_decode(i, length as nat) && digest_matches(
                    v.strategy(),
                    v.target(),
                    c@,
                ),
            None => forall|i: nat|
                i < total ==> !digest_matches(
                    v.strategy(),
                    v.target(),
                    #[trigger] a.spec_decode(i, length as nat),
                ),
        },
{
    let mut planner = BatchPlanner::new(total, batch_size);
    loop
        invariant
            a.wf(),
            total as nat == pow_nat(a.base(), length as nat),
            1 <= batch_size <= usize::MAX,
            planner.wf(),
            planner.total() == total,
            planner.batch_size() == batch_size,
            forall|i: nat|
                i < planner.cursor() ==> !digest_matches(
                    v.strategy(),
                    v.target(),
                    #[trigger] a.spec_decode(i, length as nat),
                ),
        decreases total - planner.cursor(),
    {
        match planner.next_batch() {
            Some(b) => {
                match search_batch(a, v, b, length, workers) {
                    Some(c) => {
                        proof {
                            let i = choose|i: int|
                                b.offset <= i < b.offset + b.count && c@
                                    == #[trigger] a.spec_decode(i as nat, length as nat)
                                    && digest_matches(v.strategy(), v.target(), c@);
                            assert(c@ == a.spec_decode(i as nat, length as nat));
                        }
                        return Some(c);
                    }
                    None => {
                        proof {
                            assert forall|i: nat| i < planner.cursor() implies !digest_matches(
                                v.strategy(),
                                v.target(),
                                #[trigger] a.spec_decode(i, length as nat),
                            ) by {
                                if i >= b.offset {
                                    let ii: int = i as int;
                                    assert(b.offset <= ii < b.offset + b.count);
                                    assert(!digest_matches(
                                        v.strategy(),
                                        v.target(),
                                        a.spec_decode(ii as nat, length as nat),
                                    ));
                                    assert(ii as nat == i);
                                }
                            }
                        }
                    }
                }
            }
            None => {
                return None;
            }
        }
    }
}

/// The whole run: validates the configuration, then walks candidate
/// lengths 1 through `max_length`, batching and searching each keyspace,
/// and stops at the first match.
///
/// The contract pins the outcome: a configuration fault is reported
/// exactly when present (and which one), `Exhausted` comes back exactly
/// when no candidate in range matches, and a `Found` plaintext decodes
/// from the keyspace, matches the target, and has no matching candidate
/// shorter than itself. Which matching candidate of its length is returned
/// is scheduling-dependent and deliberately left open.
pub fn search(cfg: &SearchConfig) -> (r: Result<SearchResult, ConfigError>)
    ensures
        r is Err <==> !config_ok(*cfg),
        r == Result::<SearchResult, ConfigError>::Err(ConfigError::InvalidAlphabet) <==> !alphabet_wf(
            cfg.alphabet@,
        ),
        r == Result::<SearchResult, ConfigError>::Err(ConfigError::ZeroMaxLength) <==> (
        alphabet_wf(cfg.alphabet@) && cfg.max_length == 0),
        r == Result::<SearchResult, ConfigError>::Err(ConfigError::ZeroBatchSize) <==> (
        alphabet_wf(cfg.alphabet@) && cfg.max_length >= 1 && cfg.batch_size == 0),
        r == Result::<SearchResult, ConfigError>::Err(ConfigError::KeyspaceTooLarge) <==> (
        alphabet_wf(cfg.alphabet@) && cfg.max_length >= 1 && cfg.batch_size >= 1 && pow_nat(
            cfg.alphabet@.len() as nat,
            cfg.max_length as nat,
        ) > u64::MAX),
        r == Result::<SearchResult, ConfigError>::Err(ConfigError::MalformedTarget) <==> (
        alphabet_wf(cfg.alphabet@) && cfg.max_length >= 1 && cfg.batch_size >= 1 && pow_nat(
            cfg.alphabet@.len() as nat,
            cfg.max_length as nat,
        ) <= u64::MAX && !target_wf(cfg.strategy, cfg.target@)),
        r == Result::<SearchResult, ConfigError>::Ok(SearchResult::Exhausted) <==> (config_ok(*cfg)
            && !cfg_has_match(*cfg)),
        match r {
            Ok(SearchResult::Found(c)) => {
                &&& config_ok(*cfg)
                &&& cfg_has_match(*cfg)
                &&& 1 <= c@.len() <= cfg.max_length
                &&& exists|i: nat|
                    i < pow_nat(cfg.alphabet@.len() as nat, c@.len() as nat) && c@ == ascii_chars(
                        #[trigger] decode_seq(cfg.alphabet@, i, c@.len() as nat),
                    ) && digest_matches(
                        cfg.strategy,
                        cfg.target@,
                        decode_seq(cfg.alphabet@, i, c@.len() as nat),
                    )
                &&& forall|l: nat, i: nat|
                    1 <= l < c@.len() && i < pow_nat(cfg.alphabet@.len() as nat, l)
                        ==> !digest_matches(
                        cfg.strategy,
                        cfg.target@,
                        #[trigger] decode_seq(cfg.alphabet@, i, l),
                    )
            },
            _ => true,
        },
{
    let a = match Alphabet::new(copy_bytes(&cfg.alphabet)) {
        Some(a) => a,
        None => {
            return Err(ConfigError::InvalidAlphabet);
        }
    };
    if cfg.max_length == 0 {
        return Err(ConfigError::ZeroMaxLength);
    }
    if cfg.batch_size == 0 {
        return Err(ConfigError::ZeroBatchSize);
    }
    let base = a.len() as u64;
    match checked_pow_u64(base, cfg.max_length) {
        Some(_) => {}
        None => {
            return Err(ConfigError::KeyspaceTooLarge);
        }
    }
    let v = match Verifier::new(cfg.strategy, cfg.target.clone()) {
        Some(v) => v,
        None => {
            return Err(ConfigError::MalformedTarget);
        }
    };
    let mut length: usize = 1;
    loop
        invariant
            a.wf(),
            a.symbols() == cfg.alphabet@,
            base as nat == a.base(),
            v.wf(),
            v.strategy() == cfg.strategy,
            v.target() == cfg.target@,
            config_ok(*cfg),
            1 <= length <= cfg.max_length,
            forall|l: nat, i: nat|
                1 <= l < length && i < pow_nat(cfg.alphabet@.len() as nat, l) ==> !digest_matches(
                    cfg.strategy,
                    cfg.target@,
                    #[trigger] decode_seq(cfg.alphabet@, i, l),
                ),
        decreases cfg.max_length - length,
    {
        let total = match checked_pow_u64(base, length) {
            Some(t) => t,
            None => {
                proof {
                    lemma_pow_nat_mono(a.base(), length as nat, cfg.max_length as nat);
                }
                unreached()
            }
        };
        match search_length(&a, &v, length, total, cfg.batch_size as u64, cfg.worker_count) {
            Some(cbytes) => {
                let ghost i0 = choose|i: nat|
                    i < total && cbytes@ == #[trigger] a.spec_decode(i, length as nat)
                        && digest_matches(v.strategy(), v.target(), cbytes@);
                proof {
                    crate::alphabet::lemma_encode_decode(cfg.alphabet@, i0, length as nat);
                    lemma_decode_ascii(cfg.alphabet@, i0, length as nat);
                }
                let s = ascii_to_string(cbytes);
                proof {
                    assert(s@ == ascii_chars(cbytes@));
                    assert(cbytes@.len() == length as nat);
                    assert(s@.len() == length as nat);
                    assert(cbytes@ == decode_seq(cfg.alphabet@, i0, s@.len() as nat));
                    assert(s@ == ascii_chars(decode_seq(cfg.alphabet@, i0, s@.len() as nat)));
                    assert(digest_matches(
                        cfg.strategy,
                        cfg.target@,
                        decode_seq(cfg.alphabet@, i0, s@.len() as nat),
                    ));
                    assert(i0 < pow_nat(cfg.alphabet@.len() as nat, s@.len() as nat));
                }
                return Ok(SearchResult::Found(s));
            }
            None => {
                proof {
                    assert forall|l: nat, i: nat|
                        1 <= l <= length && i < pow_nat(cfg.alphabet@.len() as nat, l)
                            implies !digest_matches(
                        cfg.strategy,
                        cfg.target@,
                        #[trigger] decode_seq(cfg.alphabet@, i, l),
                    ) by {
                        if l == length as nat {
                            assert(!digest_matches(
                                v.strategy(),
                                v.target(),
                                a.spec_decode(i, length as nat),
                            ));
                        }
                    }
                }
            }
        }
        if length == cfg.max_length {
            proof {
                assert(!cfg_has_match(*cfg)) by {
                    if cfg_has_match(*cfg) {
                        let (l, i) = choose|l: nat, i: nat|
                            1 <= l <= cfg.max_length && i < pow_nat(cfg.alphabet@.len() as nat, l)
                                && digest_matches(
                                cfg.strategy,
                                cfg.target@,
                                #[trigger] decode_seq(cfg.alphabet@, i, l),
                            );
                        assert(!digest_matches(
                            cfg.strategy,
                            cfg.target@,
                            decode_seq(cfg.alphabet@, i, l),
                        ));
                    }
                }
            }
            return Ok(SearchResult::Exhausted);
        }
        length = length + 1;
    }
}

} // verus!
