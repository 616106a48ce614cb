use vstd::prelude::*;

use crate::basicqht::{BasicQHT, Fingerprint};
use crate::element::Element;
use crate::filter::Filter;
use crate::qhtcore::{config_error, ConfigError, QhtCore, QhtState};

verus! {

/// The dqQHTc insertion policy: the cell of `e` shifts down by one bucket,
/// its first bucket's content is dropped, and the fingerprint of `e` goes
/// into its last bucket.
pub open spec fn dqqhtc_inserted(s: QhtState, e: Element) -> QhtState {
    s.with_cell(s.address(e), s.cells[s.address(e)].drop_first().push(s.fingerprint(e)))
}

/// Duplicate-detecting Quotient Hash Table with FIFO cells (dqQHTc): every
/// insertion goes into the last bucket of its cell and evicts the oldest
/// fingerprint there. It needs no random numbers.
pub struct QQuotientHashTableD {
    pub(crate) core: QhtCore,
}

impl View for QQuotientHashTableD {
    type V = QhtState;

    open(crate) spec fn view(&self) -> QhtState {
        self.core@
    }
}

impl QQuotientHashTableD {
    /// An empty filter of `memory_size` bits with `n_buckets` buckets per
    /// cell and `fingerprint_size`-bit fingerprints.
    ///
    /// The parameters must be accepted by construction (see
    /// [`QQuotientHashTableD::try_new`]).
    pub fn new(memory_size: usize, n_buckets: usize, fingerprint_size: usize) -> (r: Self)
        requires
            config_error(memory_size as nat, n_buckets as nat, fingerprint_size as nat) is None,
        ensures
            r.wf(),
            r@.n_cells == memory_size as nat / (n_buckets as nat * fingerprint_size as nat),
            r@.n_buckets == n_buckets,
            r@.fingerprint_size == fingerprint_size,
            r@.is_empty(),
    {
        QQuotientHashTableD { core: QhtCore::new(memory_size, n_buckets, fingerprint_size) }
    }

    /// Builds a filter as [`QQuotientHashTableD::new`] does, or reports the
    /// first parameter that is out of range.
    pub fn try_new(memory_size: usize, n_buckets: usize, fingerprint_size: usize) -> (r: Result<
        Self,
        ConfigError,
    >)
        ensures
            match r {
                Ok(f) => {
                    &&& config_error(memory_size as nat, n_buckets as nat, fingerprint_size as nat)
                        is None
                    &&& f.wf()
                    &&& f@.n_cells == memory_size as nat / (n_buckets as nat
                        * fingerprint_size as nat)
                    &&& f@.n_buckets == n_buckets
                    &&& f@.fingerprint_size == fingerprint_size
                    &&& f@.is_empty()
                },
                Err(err) => config_error(memory_size as nat, n_buckets as nat, fingerprint_size as nat)
                    == Some(err),
            },
    {
        match QhtCore::try_new(memory_size, n_buckets, fingerprint_size) {
            Ok(core) => Ok(QQuotientHashTableD { core }),
            Err(err) => Err(err),
        }
    }
}

impl Filter for QQuotientHashTableD {
    open(crate) spec fn wf(&self) -> bool {
        self.core.wf()
    }

    open(crate) spec fn contains(&self, e: Element) -> bool {
        self@.contains(e)
    }

    /// Whether the cell of `e` holds the fingerprint of `e`.
    fn lookup(&self, e: Element) -> (r: bool)
        ensures
            r == self@.contains(e),
    {
        let fingerprint = self.core.get_fingerprint(e);
        let address = self.core.address(e);
        self.core.in_cell(address, fingerprint)
    }

    /// Appends the fingerprint of `e` to its cell, evicting the oldest
    /// one, and reports whether the cell held it before.
    fn insert(&mut self, e: Element) -> (r: bool)
        ensures
            r == old(self)@.contains(e),
            final(self)@ == dqqhtc_inserted(old(self)@, e),
    {
        let fingerprint = self.core.get_fingerprint(e);
        let address = self.core.address(e);
        let detected = self.core.in_cell(address, fingerprint);
        self.core.insert_fingerprint_in_last_bucket(address, fingerprint);
        assert(self@.cells[address as int][self@.n_buckets - 1] == fingerprint);
        detected
    }
}

impl BasicQHT for QQuotientHashTableD {
    open(crate) spec fn footprint_bits(&self) -> nat {
        self.core.total_bits()
    }

    proof fn lemma_wf_state(&self) {
        self.core.lemma_total_bits();
    }

    fn get_fingerprint_from_bucket(&self, address: usize, bucket_number: usize) -> (r:
        Fingerprint) {
        self.core.get_fingerprint_from_bucket(address, bucket_number)
    }

    fn insert_fingerprint_in_bucket(
        &mut self,
        address: usize,
        bucket_number: usize,
        fingerprint: Fingerprint,
    ) {
        self.core.insert_fingerprint_in_bucket(address, bucket_number, fingerprint)
    }

    fn in_cell(&self, address: usize, fingerprint: Fingerprint) -> (r: bool) {
        self.core.in_cell(address, fingerprint)
    }

    fn get_fingerprint(&self, e: Element) -> (r: Fingerprint) {
        self.core.get_fingerprint(e)
    }

    fn n_cells(&self) -> (r: usize) {
        self.core.n_cells()
    }

    fn n_buckets(&self) -> (r: usize) {
        self.core.n_buckets()
    }

    fn fingerprint_size(&self) -> (r: usize) {
        self.core.fingerprint_size()
    }
}

} // verus!
