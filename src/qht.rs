use rand::rngs::StdRng;
use vstd::arithmetic::power2::pow2;
use vstd::prelude::*;

use crate::basicqht::{BasicQHT, Fingerprint};
use crate::element::Element;
use crate::filter::Filter;
use crate::qhtcore::{config_error, is_first_empty, placed, ConfigError, QhtCore, QhtState};
use crate::random::{rng_below, rng_from_entropy};

verus! {

/// The QHTc insertion policy: when the cell of `e` already holds its
/// fingerprint nothing changes; otherwise the fingerprint goes into the
/// first empty bucket of the cell, or, in a full cell, over some bucket.
pub open spec fn qhtc_inserted(s: QhtState, e: Element, t: QhtState) -> bool {
    if s.contains(e) {
        t == s
    } else {
        placed(s, s.address(e), s.fingerprint(e), t)
    }
}

/// Quotient Hash Table, compact variant (QHTc): an element is inserted
/// only when absent, and a full cell loses a bucket chosen at random.
pub struct QuotientHashTable {
    pub(crate) core: QhtCore,
    pub(crate) rng: StdRng,
}

impl View for QuotientHashTable {
    type V = QhtState;

    open(crate) spec fn view(&self) -> QhtState {
        self.core@
    }
}

impl QuotientHashTable {
    /// An empty filter of `memory_size` bits with `n_buckets` buckets per
    /// cell and `fingerprint_size`-bit fingerprints, seeded from entropy.
    ///
    /// The parameters must be accepted by construction (see
    /// [`QuotientHashTable::try_new`]).
    pub fn new(memory_size: usize, n_buckets: usize, fingerprint_size: usize) -> (r: Self)
        requires
            config_error(memory_size as nat, n_buckets as nat, fingerprint_size as nat) is None,
        ensures
            r.wf(),
            r@.n_cells == memory_size as nat / (n_buckets as nat * fingerprint_size as nat),
            r@.n_buckets == n_buckets,
            r@.fingerprint_size == fingerprint_size,
            r@.is_empty(),
    {
        let core = QhtCore::new(memory_size, n_buckets, fingerprint_size);
        let rng = rng_from_entropy();
        QuotientHashTable { core, rng }
    }

    /// Builds a filter as [`QuotientHashTable::new`] does, or reports the
    /// first parameter that is out of range.
    pub fn try_new(memory_size: usize, n_buckets: usize, fingerprint_size: usize) -> (r: Result<
        Self,
        ConfigError,
    >)
        ensures
            match r {
                Ok(f) => {
                    &&& config_error(memory_size as nat, n_buckets as nat, fingerprint_size as nat)
                        is None
                    &&& f.wf()
                    &&& f@.n_cells == memory_size as nat / (n_buckets as nat
                        * fingerprint_size as nat)
                    &&& f@.n_buckets == n_buckets
                    &&& f@.fingerprint_size == fingerprint_size
                    &&& f@.is_empty()
                },
                Err(err) => config_error(memory_size as nat, n_buckets as nat, fingerprint_size as nat)
                    == Some(err),
            },
    {
        match QhtCore::try_new(memory_size, n_buckets, fingerprint_size) {
            Ok(core) => {
                let rng = rng_from_entropy();
                Ok(QuotientHashTable { core, rng })
            },
            Err(err) => Err(err),
        }
    }

    /// A bucket index drawn uniformly from `[0, n_buckets)`.
    fn get_random_bucket(&mut self) -> (r: usize)
        requires
            old(self).wf(),
        ensures
            final(self).wf(),
            final(self)@ == old(self)@,
            r < old(self)@.n_buckets,
    {
        let n_buckets = self.core.n_buckets();
        rng_below(&mut self.rng, n_buckets)
    }
}

impl Filter for QuotientHashTable {
    open(crate) spec fn wf(&self) -> bool {
        self.core.wf()
    }

    open(crate) spec fn contains(&self, e: Element) -> bool {
        self@.contains(e)
    }

    /// Whether the cell of `e` holds the fingerprint of `e`.
    fn lookup(&self, e: Element) -> (r: bool)
        ensures
            r == self@.contains(e),
    {
        let fingerprint = self.core.get_fingerprint(e);
        let address = self.core.address(e);
        self.core.in_cell(address, fingerprint)
    }

    /// Inserts `e` unless its fingerprint is already in its cell, and
    /// reports whether it was.
    fn insert(&mut self, e: Element) -> (r: bool)
        ensures
            r == old(self)@.contains(e),
            qhtc_inserted(old(self)@, e, final(self)@),
    {
        let ghost s = self@;
        let fingerprint = self.core.get_fingerprint(e);
        let address = self.core.address(e);
        if self.core.in_cell(address, fingerprint) {
            return true;
        }
        let placed_empty = self.core.insert_empty(address, fingerprint);
        if !placed_empty {
            let bucket = self.get_random_bucket();
            self.core.insert_fingerprint_in_bucket(address, bucket, fingerprint);
            assert(self@.cells[address as int][bucket as int] == fingerprint);
        } else {
            let ghost i = choose|i: int|
                is_first_empty(s.cells[address as int], i) && self@ == s.with_cell(
                    address as int,
                    s.cells[address as int].update(i, fingerprint as nat),
                );
            assert(self@.cells[address as int][i] == fingerprint);
        }
        false
    }
}

impl BasicQHT for QuotientHashTable {
    open(crate) spec fn footprint_bits(&self) -> nat {
        self.core.total_bits()
    }

    proof fn lemma_wf_state(&self) {
        self.core.lemma_total_bits();
    }

    fn get_fingerprint_from_bucket(&self, address: usize, bucket_number: usize) -> (r:
        Fingerprint) {
        self.core.get_fingerprint_from_bucket(address, bucket_number)
    }

    fn insert_fingerprint_in_bucket(
        &mut self,
        address: usize,
        bucket_number: usize,
        fingerprint: Fingerprint,
    ) {
        self.core.insert_fingerprint_in_bucket(address, bucket_number, fingerprint)
    }

    fn in_cell(&self, address: usize, fingerprint: Fingerprint) -> (r: bool) {
        self.core.in_cell(address, fingerprint)
    }

    fn get_fingerprint(&self, e: Element) -> (r: Fingerprint) {
        self.core.get_fingerprint(e)
    }

    fn n_cells(&self) -> (r: usize) {
        self.core.n_cells()
    }

    fn n_buckets(&self) -> (r: usize) {
        self.core.n_buckets()
    }

    fn fingerprint_size(&self) -> (r: usize) {
        self.core.fingerprint_size()
    }
}

} // verus!
