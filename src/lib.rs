//! Quotient hash tables: compact approximate-membership filters for
//! duplicate detection over unbounded streams.
//!
//! Three insertion policies share one cell array ([`QhtCore`]):
//! [`QuotientHashTable`] (QHTc) inserts only absent elements,
//! [`DQuotientHashTable`] (dQHTc) always writes, and
//! [`QQuotientHashTableD`] (dqQHTc) keeps each cell in arrival order.

mod basicqht;
mod bitstore;
mod dqht;
mod element;
mod filter;
mod laws;
mod qht;
mod qhtcore;
mod qqhtd;
mod random;

pub use crate::basicqht::{get_hash, hash_spec, BasicQHT, Fingerprint};
pub use crate::bitstore::{
    bit_of, bits_of, bits_value, lemma_bits_value_bound, lemma_bits_value_of,
    lemma_insert_then_extract, overwrite, BitStore,
};
pub use crate::dqht::{dqhtc_inserted, DQuotientHashTable};
pub use crate::element::Element;
pub use crate::filter::Filter;
pub use crate::laws::{
    dqqhtc_inserted_all, fingerprints, lemma_dqhtc_insert_then_lookup, lemma_dqhtc_insert_twice,
    lemma_dqqhtc_fifo, lemma_dqqhtc_insert_then_lookup, lemma_dqqhtc_insert_twice,
    lemma_empty_contains_nothing, lemma_fingerprint_and_address, lemma_qhtc_insert_then_lookup,
    lemma_qhtc_insert_twice,
};
pub use crate::qht::{qhtc_inserted, QuotientHashTable};
pub use crate::qhtcore::{
    address_of, config_error, fingerprint_from, fingerprint_of, is_first_empty,
    lemma_fingerprint_range, placed, ConfigError, QhtCore, QhtState, FINGERPRINT_SIZE_LIMIT,
};
pub use crate::qqhtd::{dqqhtc_inserted, QQuotientHashTableD};
