use vstd::prelude::*;
use rayon::iter::{IntoParallelRefIterator, ParallelIterator};
use crate::{checked_pow_u64, pow_nat};
use crate::alphabet::{ascii_chars, ascii_to_string, lemma_decode_ascii, Alphabet};
use crate::matcher::{digest_matches, Verifier};
use crate::planner::Batch;

verus! {

/// One verification step: decode `index` into its candidate and test it
/// against the target. Returns the candidate exactly when it matches.
pub fn check_index(a: &Alphabet, v: &Verifier, index: u64, length: usize) -> (r: Option<Vec<u8>>)
    requires
        a.wf(),
        (index as nat) < pow_nat(a.base(), length as nat),
    ensures
        match r {
            Some(c) => c@ == a.spec_decode(index as nat, length as nat) && digest_matches(
                v.strategy(),
                v.target(),
                c@,
            ),
            None => !digest_matches(
                v.strategy(),
                v.target(),
                a.spec_decode(index as nat, length as nat),
            ),
        },
{
    let c = a.decode(index, length);
    if v.matches_bytes(c.as_slice()) {
        Some(c)
    } else {
        None
    }
}

/// Relies on rayon: `find_map_any` over a scoped pool of `workers` threads
/// (0 lets rayon pick) hands every listed index to the closure — which
/// only calls the verified `check_index` — and returns one `Some` result
/// if any closure produced one, else `None` after all of them ran. Which
/// match wins when several exist is scheduling-dependent and left open
/// here; remaining work is skipped once a result exists.
#[verifier::external_body]
fn par_find(a: &Alphabet, v: &Verifier, indices: &Vec<u64>, length: usize, workers: usize) -> (r:
    Option<Vec<u8>>)
    requires
        a.wf(),
        forall|k: int|
            0 <= k < indices@.len() ==> (#[trigger] indices@[k] as nat) < pow_nat(
                a.base(),
                length as nat,
            ),
    ensures
        match r {
            Some(c) => exists|k: int|
                0 <= k < indices@.len() && c@ == a.spec_decode(
                    #[trigger] indices@[k] as nat,
                    length as nat,
                ) && digest_matches(v.strategy(), v.target(), c@),
            None => forall|k: int|
                0 <= k < indices@.len() ==> !digest_matches(
                    v.strategy(),
                    v.target(),
                    a.spec_decode(#[trigger] indices@[k] as nat, length as nat),
                ),
        },
{
    let run = || indices.par_iter().find_map_any(|&i| check_index(a, v, i, length));
    match rayon::ThreadPoolBuilder::new().num_threads(workers).build() {
        Ok(pool) => pool.install(run),
        Err(_) => run(),
    }
}

/// The consecutive indices `offset, offset + 1, ...`, `count` of them.
fn make_index_vec(offset: u64, count: usize) -> (r: Vec<u64>)
    requires
        offset + count <= u64::MAX,
    ensures
        r@.len() == count as nat,
        forall|k: int| 0 <= k < count ==> #[trigger] r@[k] == offset + k,
{
    let mut out: Vec<u64> = Vec::new();
    let mut k: usize = 0;
    while k < count
        invariant
            offset + count <= u64::MAX,
            k <= count,
            out@.len() == k as nat,
            forall|j: int| 0 <= j < k ==> #[trigger] out@[j] == offset + j,
        decreases count - k,
    {
        out.push(offset + k as u64);
        k = k + 1;
    }
    out
}

/// Evaluates one batch of the keyspace in parallel: `Some(candidate)` only
/// for a matching candidate decoded from an index of the batch; `None`
/// exactly when no index of the batch matches.
pub fn search_batch(a: &Alphabet, v: &Verifier, batch: Batch, length: usize, workers: usize) -> (r:
    Option<Vec<u8>>)
    requires
        a.wf(),
        batch.offset + batch.count <= pow_nat(a.base(), length as nat),
        batch.offset + batch.count <= u64::MAX,
        batch.count <= usize::MAX,
    ensures
        match r {
            Some(c) => exists|i: int|
                batch.offset <= i < batch.offset + batch.count && c@ == #[trigger] a.spec_decode(
                    i as nat,
                    length as nat,
                ) && digest_matches(v.strategy(), v.target(), c@),
            None => forall|i: int|
                batch.offset <= i < batch.offset + batch.count ==> !digest_matches(
                    v.strategy(),
                    v.target(),
                    #[trigger] a.spec_decode(i as nat, length as nat),
                ),
        },
{
    let idxs = make_index_vec(batch.offset, batch.count as usize);
    let r = par_find(a, v, &idxs, length, workers);
    proof {
        if r is Some {
            let c = r->Some_0;
            let k = choose|k: int|
                0 <= k < idxs@.len() && c@ == a.spec_decode(
                    #[trigger] idxs@[k] as nat,
                    length as nat,
                ) && digest_matches(v.strategy(), v.target(), c@);
            assert(idxs@[k] == batch.offset + k);
            let i: int = idxs@[k] as int;
            assert(batch.offset <= i < batch.offset + batch.count);
            assert(c@ == a.spec_decode(i as nat, length as nat));
        }
        if r is None {
            assert forall|i: int|
                batch.offset <= i < batch.offset + batch.count implies !digest_matches(
                v.strategy(),
                v.target(),
                #[trigger] a.spec_decode(i as nat, length as nat),
            ) by {
                let k = i - batch.offset;
                assert(idxs@[k] == batch.offset + k);
            }
        }
    }
    r
}

/// Host-side verification of device-generated index offsets: stage two of
/// the device-assisted pipeline. Each raw offset is taken relative to
/// `base_offset`; offsets that leave the keyspace of the given length, or
/// overflow, are ignored. `Some` only for a matching candidate decoded
/// from one of the supplied in-range offsets — exactly what the CPU path
/// concludes of the same absolute indices; `None` means no usable offset
/// of the list matched.
pub fn search_indices(
    a: &Alphabet,
    v: &Verifier,
    raw: &Vec<u64>,
    base_offset: u64,
    length: usize,
    workers: usize,
) -> (r: Option<String>)
    requires
        a.wf(),
    ensures
        match r {
            Some(c) => exists|k: int|
                0 <= k < raw@.len() && base_offset + #[trigger] raw@[k] <= u64::MAX && (base_offset
                    + raw@[k] as nat) < pow_nat(a.base(), length as nat) && c@ == ascii_chars(
                    a.spec_decode((base_offset + raw@[k]) as nat, length as nat),
                ) && digest_matches(
                    v.strategy(),
                    v.target(),
                    a.spec_decode((base_offset + raw@[k]) as nat, length as nat),
                ),
            None => forall|k: int|
                0 <= k < raw@.len() && base_offset + #[trigger] raw@[k] <= u64::MAX && (base_offset
                    + raw@[k] as nat) < pow_nat(a.base(), length as nat) ==> !digest_matches(
                    v.strategy(),
                    v.target(),
                    a.spec_decode((base_offset + raw@[k]) as nat, length as nat),
                ),
        },
{
    let limit = checked_pow_u64(a.len() as u64, length);
    let n = raw.len();
    let mut valid: Vec<u64> = Vec::new();
    // For each kept absolute index, the position in `raw` it came from.
    let ghost mut origins: Seq<int> = Seq::empty();
    let mut k: usize = 0;
    while k < n
        invariant
            a.wf(),
            n == raw@.len(),
            k <= n,
            match limit {
                Some(t) => t as nat == pow_nat(a.base(), length as nat),
                None => pow_nat(a.base(), length as nat) > u64::MAX,
            },
            forall|m: int|
                0 <= m < valid@.len() ==> (#[trigger] valid@[m] as nat) < pow_nat(
                    a.base(),
                    length as nat,
                ),
            forall|j: int|
                0 <= j < k && base_offset + #[trigger] raw@[j] <= u64::MAX && (base_offset
                    + raw@[j] as nat) < pow_nat(a.base(), length as nat) ==> valid@.contains(
                    (base_offset + raw@[j]) as u64,
                ),
            origins.len() == valid@.len(),
            forall|m: int|
                0 <= m < valid@.len() ==> 0 <= #[trigger] origins[m] < k && base_offset
                    + raw@[origins[m]] <= u64::MAX && valid@[m] == base_offset + raw@[origins[m]],
        decreases n - k,
    {
        let ghost vsnap = valid@;
        match base_offset.checked_add(raw[k]) {
            Some(abs) => {
                let keep = match limit {
                    Some(t) => abs < t,
                    None => true,
                };
                if keep {
                    valid.push(abs);
                    proof {
                        origins = origins.push(k as int);
                        assert(valid@ == vsnap.push(abs));
                        assert(valid@[vsnap.len() as int] == abs);
                        assert(valid@.contains(abs));
                        assert(origins[vsnap.len() as int] == k as int);
                    }
                }
            }
            None => {}
        }
        proof {
            assert forall|x: u64| vsnap.contains(x) implies valid@.contains(x) by {
                let m = choose|m: int| 0 <= m < vsnap.len() && vsnap[m] == x;
                assert(valid@[m] == x);
            }
        }
        k = k + 1;
    }
    let found = par_find(a, v, &valid, length, workers);
    match found {
        Some(c) => {
            proof {
                let m = choose|m: int|
                    0 <= m < valid@.len() && c@ == a.spec_decode(
                        #[trigger] valid@[m] as nat,
                        length as nat,
                    ) && digest_matches(v.strategy(), v.target(), c@);
                lemma_decode_ascii(a.symbols(), valid@[m] as nat, length as nat);
                let j = origins[m];
                assert(valid@[m] == base_offset + raw@[j]);
                assert((valid@[m] as nat) < pow_nat(a.base(), length as nat));
                assert((base_offset + raw@[j] as nat) < pow_nat(a.base(), length as nat));
                assert(c@ == a.spec_decode((base_offset + raw@[j]) as nat, length as nat));
            }
            Some(ascii_to_string(c))
        }
        None => {
            proof {
                assert forall|j: int|
                    0 <= j < raw@.len() && base_offset + #[trigger] raw@[j] <= u64::MAX && (
                base_offset + raw@[j] as nat) < pow_nat(a.base(), length as nat) implies !digest_matches(
                    v.strategy(),
                    v.target(),
                    a.spec_decode((base_offset + raw@[j]) as nat, length as nat),
                ) by {
                    let x = (base_offset + raw@[j]) as u64;
                    assert(valid@.contains(x));
                    let m = choose|m: int| 0 <= m < valid@.len() && valid@[m] == x;
                    assert((valid@[m] as nat) < pow_nat(a.base(), length as nat));
                }
            }
            None
        }
    }
}

} // verus!
