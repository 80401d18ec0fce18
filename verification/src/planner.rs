use vstd::prelude::*;
use vstd::arithmetic::div_mod::{
    lemma_fundamental_div_mod, lemma_mod_division_less_than_divisor,
};

verus! {

/// A contiguous slice `[offset, offset + count)` of a keyspace's index
/// domain, one unit of parallel work.
#[derive(Clone, Copy, Debug, PartialEq, Eq, Structural)]
pub struct Batch {
    pub offset: u64,
    pub count: u64,
}

/// Divides `[0, total)` into batches of at most `batch_size` indices,
/// in order, tracking the cumulative offset. Pure arithmetic; the cursor
/// is its only state.
pub struct BatchPlanner {
    total: u64,
    batch_size: u64,
    cursor: u64,
}

impl BatchPlanner {
    pub closed spec fn total(&self) -> u64 {
        self.total
    }

    pub closed spec fn batch_size(&self) -> u64 {
        self.batch_size
    }

    /// How many indices have already been handed out: all of `[0, cursor)`.
    pub closed spec fn cursor(&self) -> u64 {
        self.cursor
    }

    pub open spec fn wf(&self) -> bool {
        self.batch_size() >= 1 && self.cursor() <= self.total()
    }

    pub fn new(total: u64, batch_size: u64) -> (r: BatchPlanner)
        requires
            batch_size >= 1,
        ensures
            r.wf(),
            r.total() == total,
            r.batch_size() == batch_size,
            r.cursor() == 0,
    {
        BatchPlanner { total, batch_size, cursor: 0 }
    }

    /// The next batch: `min(batch_size, remaining)` indices starting at the
    /// cursor, or `None` once `[0, total)` is covered. Consecutive calls
    /// emit adjacent batches: no gap, no overlap.
    pub fn next_batch(&mut self) -> (r: Option<Batch>)
        requires
            old(self).wf(),
        ensures
            final(self).wf(),
            final(self).total() == old(self).total(),
            final(self).batch_size() == old(self).batch_size(),
            match r {
                Some(b) => {
                    &&& old(self).cursor() < old(self).total()
                    &&& b.offset == old(self).cursor()
                    &&& b.count == if old(self).total() - old(self).cursor() < old(
                        self,
                    ).batch_size() {
                        (old(self).total() - old(self).cursor()) as u64
                    } else {
                        old(self).batch_size()
                    }
                    &&& 1 <= b.count <= old(self).batch_size()
                    &&& b.offset + b.count <= old(self).total()
                    &&& final(self).cursor() == b.offset + b.count
                },
                None => {
                    &&& old(self).cursor() == old(self).total()
                    &&& final(self).cursor() == old(self).cursor()
                },
            },
    {
        if self.cursor >= self.total {
            return None;
        }
        let remaining = self.total - self.cursor;
        let count = if remaining < self.batch_size {
            remaining
        } else {
            self.batch_size
        };
        let b = Batch { offset: self.cursor, count };
        self.cursor = self.cursor + count;
        Some(b)
    }
}

/// How many batches a run over `[0, total)` with batch size `bs` emits.
pub open spec fn spec_num_batches(total: nat, bs: nat) -> nat {
    ((total + bs - 1) / (bs as int)) as nat
}

/// Where the `k`-th emitted batch starts.
pub open spec fn spec_batch_offset(bs: nat, k: nat) -> nat {
    k * bs
}

/// How many indices the `k`-th emitted batch holds.
pub open spec fn spec_batch_count(total: nat, bs: nat, k: nat) -> nat {
    if k * bs >= total {
        0
    } else if total - k * bs < bs {
        (total - k * bs) as nat
    } else {
        bs
    }
}

/// Whether index `i` falls in the `k`-th batch.
pub open spec fn in_batch(total: nat, bs: nat, k: nat, i: nat) -> bool {
    spec_batch_offset(bs, k) <= i < spec_batch_offset(bs, k) + spec_batch_count(total, bs, k)
}

/// The number of the batch that holds index `i`.
pub open spec fn batch_of(bs: nat, i: nat) -> nat {
    ((i as int) / (bs as int)) as nat
}

/// The emitted batches tile the index space exactly: every index below
/// `total` lies in the one batch numbered by its quotient, no other batch
/// holds it, and every batch lies inside `[0, total)` and is nonempty.
pub proof fn lemma_batches_cover(total: nat, bs: nat)
    requires
        bs >= 1,
    ensures
        forall|i: nat| i < total ==> in_batch(total, bs, #[trigger] batch_of(bs, i), i),
        forall|i: nat, k: nat| #[trigger] in_batch(total, bs, k, i) && i < total ==> k == batch_of(
            bs,
            i,
        ),
        forall|k: nat|
            k < spec_num_batches(total, bs) ==> 1 <= #[trigger] spec_batch_count(total, bs, k)
                && spec_batch_offset(bs, k) + spec_batch_count(total, bs, k) <= total,
        forall|k: nat, i: nat|
            #[trigger] in_batch(total, bs, k, i) ==> k < spec_num_batches(total, bs),
{
    let n = spec_num_batches(total, bs);
    assert(total <= n * bs && n * bs < total + bs) by {
        lemma_fundamental_div_mod((total + bs - 1) as int, bs as int);
        lemma_mod_division_less_than_divisor((total + bs - 1) as int, bs as int);
        assert(total + bs - 1 == bs * n + ((total + bs - 1) as int % (bs as int)));
        assert(bs * n == n * bs) by (nonlinear_arith);
    }
    assert forall|i: nat| i < total implies in_batch(total, bs, #[trigger] batch_of(bs, i), i) by {
        let k = batch_of(bs, i);
        lemma_fundamental_div_mod(i as int, bs as int);
        lemma_mod_division_less_than_divisor(i as int, bs as int);
        assert(bs * k == k * bs) by (nonlinear_arith);
        assert(k * bs <= i < k * bs + bs);
    }
    assert forall|i: nat, k: nat| #[trigger] in_batch(total, bs, k, i) && i < total implies k
        == batch_of(bs, i) by {
        assert(k * bs <= i < k * bs + bs);
        assert(i / bs == k) by {
            vstd::arithmetic::div_mod::lemma_div_multiples_vanish_fancy(
                k as int,
                (i - k * bs) as int,
                bs as int,
            );
            assert(bs * k + (i - k * bs) == i);
        }
    }
    assert forall|k: nat| k < n implies 1 <= #[trigger] spec_batch_count(total, bs, k)
        && spec_batch_offset(bs, k) + spec_batch_count(total, bs, k) <= total by {
        assert(k * bs + bs <= n * bs) by (nonlinear_arith)
            requires
                k < n,
        ;
        assert(k * bs < total) by {
            assert(n * bs < total + bs);
        }
    }
    assert forall|k: nat, i: nat| #[trigger] in_batch(total, bs, k, i) implies k < n by {
        assert(spec_batch_count(total, bs, k) >= 1);
        assert(k * bs < total);
        assert(k < n) by (nonlinear_arith)
            requires
                k * bs < total,
                total <= n * bs,
                bs >= 1,
        ;
    }
}

} // verus!
