use std::collections::hash_map::DefaultHasher;
use std::hash::Hasher;
use vstd::bytes::{spec_u64_to_le_bytes, u64_to_le_bytes};
use vstd::prelude::*;
use vstd::std_specs::hash::DefaultHasherAdditionalSpecFns;

use vstd::arithmetic::power2::pow2;

use crate::element::Element;
use crate::filter::Filter;
use crate::qhtcore::QhtState;

verus! {

/// The hash of the triple `(e, base, counter)`: the digest that std's
/// `DefaultHasher` gives after the three values are written to it, each
/// as its eight little-endian bytes.
pub open spec fn hash_spec(e: Element, base: u64, counter: u64) -> u64 {
    DefaultHasher::spec_finish(
        seq![
            spec_u64_to_le_bytes(e.value),
            spec_u64_to_le_bytes(base),
            spec_u64_to_le_bytes(counter),
        ],
    )
}

/// Returns the hash of `(e, base, counter)`.
///
/// Distinct `base` values give independent hash functions over the same
/// elements; `counter` lets a caller draw further values from one of them.
pub fn get_hash(e: Element, base: u64, counter: u64) -> (r: u64)
    ensures
        r == hash_spec(e, base, counter),
{
    let mut s = DefaultHasher::new();
    let item_bytes = u64_to_le_bytes(e.value);
    s.write(item_bytes.as_slice());
    let base_bytes = u64_to_le_bytes(base);
    s.write(base_bytes.as_slice());
    let counter_bytes = u64_to_le_bytes(counter);
    s.write(counter_bytes.as_slice());
    let r = s.finish();
    assert(s@ =~= seq![
        spec_u64_to_le_bytes(e.value),
        spec_u64_to_le_bytes(base),
        spec_u64_to_le_bytes(counter),
    ]);
    r
}

/// The content of a bucket: a fingerprint, or 0 for an empty bucket.
pub type Fingerprint = u64;

/// What the quotient hash table variants have in common: cells of buckets
/// holding fingerprints, at the addresses and with the fingerprints of
/// [`QhtState`].
pub trait BasicQHT: Filter + View<V = QhtState> {
    /// The number of bits that the cells take up.
    spec fn footprint_bits(&self) -> nat;

    /// The filter's invariant gives a well-formed state.
    proof fn lemma_wf_state(&self)
        requires
            self.wf(),
        ensures
            self@.wf(),
            self.footprint_bits() == self@.n_cells * self@.n_buckets * self@.fingerprint_size,
    ;

    /// Obtains the fingerprint stored in a given bucket.
    fn get_fingerprint_from_bucket(&self, address: usize, bucket_number: usize) -> (r:
        Fingerprint)
        requires
            self.wf(),
            address < self@.n_cells,
            bucket_number < self@.n_buckets,
        ensures
            r == self@.cells[address as int][bucket_number as int],
    ;

    /// Inserts a fingerprint in a bucket.
    fn insert_fingerprint_in_bucket(
        &mut self,
        address: usize,
        bucket_number: usize,
        fingerprint: Fingerprint,
    )
        requires
            old(self).wf(),
            address < old(self)@.n_cells,
            bucket_number < old(self)@.n_buckets,
            fingerprint < pow2(old(self)@.fingerprint_size),
        ensures
            final(self).wf(),
            final(self)@ == old(self)@.with_cell(
                address as int,
                old(self)@.cells[address as int].update(bucket_number as int, fingerprint as nat),
            ),
    ;

    /// Checks whether a fingerprint is in a cell.
    fn in_cell(&self, address: usize, fingerprint: Fingerprint) -> (r: bool)
        requires
            self.wf(),
            address < self@.n_cells,
        ensures
            r == self@.cells[address as int].contains(fingerprint as nat),
    ;

    /// Obtains the fingerprint of an element.
    fn get_fingerprint(&self, e: Element) -> (r: Fingerprint)
        requires
            self.wf(),
        ensures
            r == self@.fingerprint(e),
            1 <= r < pow2(self@.fingerprint_size),
    ;

    /// Number of cells.
    fn n_cells(&self) -> (r: usize)
        ensures
            r == self@.n_cells,
    ;

    /// Number of buckets in a cell.
    fn n_buckets(&self) -> (r: usize)
        ensures
            r == self@.n_buckets,
    ;

    /// Width of a fingerprint, in bits.
    fn fingerprint_size(&self) -> (r: usize)
        ensures
            r == self@.fingerprint_size,
    ;
}

} // verus!
