use vstd::arithmetic::div_mod::{lemma_div_denominator, lemma_fundamental_div_mod};
use vstd::arithmetic::power2::{lemma2_to64, lemma_pow2_pos, pow2};
use vstd::bits::{lemma_u64_pow2_no_overflow, lemma_u64_shl_is_mul};
use vstd::prelude::*;

use crate::basicqht::{get_hash, hash_spec};
use crate::bitstore::{bits_value, lemma_bits_value_bound, lemma_insert_then_extract, overwrite, BitStore};
use crate::element::Element;

verus! {

/// Largest fingerprint width, in bits.
pub const FINGERPRINT_SIZE_LIMIT: usize = 8;

/// Why a filter could not be built from the parameters it was given.
#[derive(Clone, Copy, Debug, PartialEq, Eq)]
pub enum ConfigError {
    /// `fingerprint_size` cannot exceed 8.
    FingerprintTooLarge,
    /// `fingerprint_size` cannot be zero.
    FingerprintZero,
    /// `n_buckets` cannot be zero.
    NoBuckets,
    /// `memory_size` should be at least `n_buckets * fingerprint_size`.
    MemoryTooSmall,
}

/// The error, if any, that construction reports for the given parameters
/// (the checks run in this order).
pub open spec fn config_error(memory_size: nat, n_buckets: nat, fingerprint_size: nat) -> Option<
    ConfigError,
> {
    if fingerprint_size > FINGERPRINT_SIZE_LIMIT {
        Some(ConfigError::FingerprintTooLarge)
    } else if fingerprint_size == 0 {
        Some(ConfigError::FingerprintZero)
    } else if n_buckets == 0 {
        Some(ConfigError::NoBuckets)
    } else if memory_size / (n_buckets * fingerprint_size) == 0 {
        Some(ConfigError::MemoryTooSmall)
    } else {
        None
    }
}

// ------------------------------------------------------------------------
// Fingerprints and addresses

/// The fingerprint search from `counter` on: the first non-zero residue
/// modulo `pow` of the hash with seed 2 and a growing counter. Should the
/// counter run out, which no real hash allows, the fingerprint is 1.
pub open spec fn fingerprint_from(e: Element, pow: nat, counter: u64) -> nat
    decreases u64::MAX - counter,
{
    let h = hash_spec(e, 2, counter) as nat % pow;
    if h != 0 {
        h
    } else if counter == u64::MAX {
        1
    } else {
        fingerprint_from(e, pow, (counter + 1) as u64)
    }
}

/// The `fingerprint_size`-bit fingerprint of `e`.
pub open spec fn fingerprint_of(e: Element, fingerprint_size: nat) -> nat {
    fingerprint_from(e, pow2(fingerprint_size), 0)
}

/// The cell that `e` maps to: its hash with seed 1, modulo the number of cells.
pub open spec fn address_of(e: Element, n_cells: nat) -> nat {
    hash_spec(e, 1, 0) as nat % n_cells
}

/// A fingerprint is never zero, and fits in its width.
pub proof fn lemma_fingerprint_range(e: Element, pow: nat, counter: u64)
    requires
        pow >= 2,
    ensures
        1 <= fingerprint_from(e, pow, counter) < pow,
    decreases u64::MAX - counter,
{
    if hash_spec(e, 2, counter) as nat % pow == 0 && counter < u64::MAX {
        lemma_fingerprint_range(e, pow, (counter + 1) as u64);
    }
}

// ------------------------------------------------------------------------
// The abstract state of a filter

/// What a filter holds: its geometry, and for each cell the contents of
/// its buckets in order (0 for an empty bucket).
pub struct QhtState {
    pub n_cells: nat,
    pub n_buckets: nat,
    pub fingerprint_size: nat,
    pub cells: Seq<Seq<nat>>,
}

impl QhtState {
    /// Parameters in range, `n_cells` cells of `n_buckets` buckets each,
    /// every bucket holding a `fingerprint_size`-bit value.
    pub open spec fn wf(self) -> bool {
        &&& 1 <= self.fingerprint_size <= 8
        &&& self.n_buckets >= 1
        &&& self.n_cells >= 1
        &&& self.cells.len() == self.n_cells
        &&& forall|a: int| 0 <= a < self.n_cells ==> #[trigger] self.cells[a].len() == self.n_buckets
        &&& forall|a: int, b: int|
            0 <= a < self.n_cells && 0 <= b < self.n_buckets ==> #[trigger] self.cells[a][b] < pow2(
                self.fingerprint_size,
            )
    }

    /// The cell that `e` maps to.
    pub open spec fn address(self, e: Element) -> int {
        address_of(e, self.n_cells) as int
    }

    /// The fingerprint of `e`.
    pub open spec fn fingerprint(self, e: Element) -> nat {
        fingerprint_of(e, self.fingerprint_size)
    }

    /// Whether the cell of `e` holds the fingerprint of `e`.
    pub open spec fn contains(self, e: Element) -> bool {
        self.cells[self.address(e)].contains(self.fingerprint(e))
    }

    /// The same filter with cell `a` replaced by `cell`.
    pub open spec fn with_cell(self, a: int, cell: Seq<nat>) -> QhtState {
        QhtState {
            n_cells: self.n_cells,
            n_buckets: self.n_buckets,
            fingerprint_size: self.fingerprint_size,
            cells: self.cells.update(a, cell),
        }
    }

    /// Every bucket is empty.
    pub open spec fn is_empty(self) -> bool {
        forall|a: int, b: int|
            0 <= a < self.n_cells && 0 <= b < self.n_buckets ==> #[trigger] self.cells[a][b] == 0
    }
}

/// `i` is the first empty bucket of `cell`.
pub open spec fn is_first_empty(cell: Seq<nat>, i: int) -> bool {
    &&& 0 <= i < cell.len()
    &&& cell[i] == 0
    &&& forall|j: int| 0 <= j < i ==> #[trigger] cell[j] != 0
}

/// `t` is `s` after `fp` was written into cell `a`: into its first empty
/// bucket if it has one, else into some bucket of the cell.
pub open spec fn placed(s: QhtState, a: int, fp: nat, t: QhtState) -> bool {
    let cell = s.cells[a];
    if cell.contains(0) {
        exists|i: int| is_first_empty(cell, i) && t == s.with_cell(a, cell.update(i, fp))
    } else {
        exists|b: int| 0 <= b < s.n_buckets && t == s.with_cell(a, cell.update(b, fp))
    }
}

// ------------------------------------------------------------------------
// Layout of the cells in the bit store

spec fn bucket_value(bits: Seq<bool>, k: int, f: nat) -> nat {
    bits_value(bits.subrange(k * f, k * f + f))
}

spec fn cells_of(bits: Seq<bool>, n_cells: nat, n_buckets: nat, f: nat) -> Seq<Seq<nat>> {
    Seq::new(n_cells, |a: int| Seq::new(n_buckets, |b: int| bucket_value(bits, a * n_buckets + b, f)))
}

proof fn lemma_bucket_range(a: int, b: int, n_cells: int, n_buckets: int, f: int)
    requires
        0 <= a < n_cells,
        0 <= b < n_buckets,
        f >= 1,
    ensures
        0 <= a * n_buckets <= a * n_buckets + b,
        a * n_buckets + b + 1 <= n_cells * n_buckets,
        n_cells * n_buckets <= n_cells * n_buckets * f,
        0 <= (a * n_buckets + b) * f,
        (a * n_buckets + b) * f + f <= n_cells * n_buckets * f,
{
    assert(0 <= a * n_buckets) by (nonlinear_arith)
        requires
            0 <= a,
            0 <= n_buckets,
    ;
    assert(a * n_buckets + b + 1 <= n_cells * n_buckets) by (nonlinear_arith)
        requires
            0 <= a < n_cells,
            0 <= b < n_buckets,
    ;
    assert(n_cells * n_buckets <= n_cells * n_buckets * f) by (nonlinear_arith)
        requires
            0 <= n_cells * n_buckets,
            f >= 1,
    ;
    assert((a * n_buckets + b) * f + f <= n_cells * n_buckets * f) by (nonlinear_arith)
        requires
            a * n_buckets + b + 1 <= n_cells * n_buckets,
            f >= 1,
    ;
    assert(0 <= (a * n_buckets + b) * f) by (nonlinear_arith)
        requires
            0 <= a * n_buckets + b,
            f >= 1,
    ;
}

proof fn lemma_bucket_unique(a: int, b: int, a2: int, b2: int, n_buckets: int)
    requires
        0 <= a,
        0 <= a2,
        0 <= b < n_buckets,
        0 <= b2 < n_buckets,
        a * n_buckets + b == a2 * n_buckets + b2,
    ensures
        a == a2,
        b == b2,
{
    if a < a2 {
        assert(a * n_buckets + b < a2 * n_buckets) by (nonlinear_arith)
            requires
                a < a2,
                0 <= b < n_buckets,
        ;
    } else if a2 < a {
        assert(a2 * n_buckets + b2 < a * n_buckets) by (nonlinear_arith)
            requires
                a2 < a,
                0 <= b2 < n_buckets,
        ;
    }
}

proof fn lemma_regions_disjoint(k: int, k2: int, f: int, i: int)
    requires
        0 <= k,
        0 <= k2,
        k != k2,
        f >= 0,
        k2 * f <= i < k2 * f + f,
    ensures
        !(k * f <= i < k * f + f),
{
    if k < k2 {
        assert(k * f + f <= k2 * f) by (nonlinear_arith)
            requires
                k < k2,
                f >= 0,
        ;
    } else {
        assert(k2 * f + f <= k * f) by (nonlinear_arith)
            requires
                k2 < k,
                f >= 0,
        ;
    }
}

/// Writing bucket `b` of cell `a` changes that bucket and no other.
proof fn lemma_write_bucket(
    bits: Seq<bool>,
    n_cells: nat,
    n_buckets: nat,
    f: nat,
    a: int,
    b: int,
    fp: u64,
)
    requires
        bits.len() == n_cells * n_buckets * f,
        0 <= a < n_cells,
        0 <= b < n_buckets,
        1 <= f <= 64,
        fp < pow2(f),
    ensures
        cells_of(overwrite(bits, fp as nat, (a * n_buckets + b) * f, f), n_cells, n_buckets, f)
            == cells_of(bits, n_cells, n_buckets, f).update(
            a,
            cells_of(bits, n_cells, n_buckets, f)[a].update(b, fp as nat),
        ),
{
    let k = a * n_buckets + b;
    let after = overwrite(bits, fp as nat, k * f, f);
    let before_cells = cells_of(bits, n_cells, n_buckets, f);
    let after_cells = cells_of(after, n_cells, n_buckets, f);
    let expected = before_cells.update(a, before_cells[a].update(b, fp as nat));
    lemma_bucket_range(a, b, n_cells as int, n_buckets as int, f as int);
    lemma_insert_then_extract(bits, fp, (k * f) as nat, f);
    assert forall|a2: int| 0 <= a2 < n_cells implies #[trigger] after_cells[a2] =~= expected[a2] by {
        assert forall|b2: int| 0 <= b2 < n_buckets implies after_cells[a2][b2]
            == #[trigger] expected[a2][b2] by {
            let k2 = a2 * n_buckets + b2;
            lemma_bucket_range(a2, b2, n_cells as int, n_buckets as int, f as int);
            if a2 == a && b2 == b {
            } else {
                if k2 == k {
                    lemma_bucket_unique(a, b, a2, b2, n_buckets as int);
                }
                assert forall|i: int| k2 * f <= i < k2 * f + f implies #[trigger] after[i]
                    == bits[i] by {
                    lemma_regions_disjoint(k, k2, f as int, i);
                }
                assert(after.subrange(k2 * f, k2 * f + f) =~= bits.subrange(k2 * f, k2 * f + f));
            }
        }
    }
    assert(after_cells =~= expected);
}

/// A store of zeros holds empty cells only.
proof fn lemma_zero_cells(bits: Seq<bool>, n_cells: nat, n_buckets: nat, f: nat)
    requires
        bits.len() == n_cells * n_buckets * f,
        f >= 1,
        forall|i: int| 0 <= i < bits.len() ==> !#[trigger] bits[i],
    ensures
        forall|a: int, b: int|
            0 <= a < n_cells && 0 <= b < n_buckets ==> #[trigger] cells_of(
                bits,
                n_cells,
                n_buckets,
                f,
            )[a][b] == 0,
{
    assert forall|a: int, b: int| 0 <= a < n_cells && 0 <= b < n_buckets implies #[trigger] cells_of(
        bits,
        n_cells,
        n_buckets,
        f,
    )[a][b] == 0 by {
        let k = a * n_buckets + b;
        lemma_bucket_range(a, b, n_cells as int, n_buckets as int, f as int);
        lemma_zeros_value(bits.subrange(k * f, k * f + f));
    }
}

proof fn lemma_zeros_value(s: Seq<bool>)
    requires
        forall|i: int| 0 <= i < s.len() ==> !#[trigger] s[i],
    ensures
        bits_value(s) == 0,
    decreases s.len(),
{
    if s.len() > 0 {
        lemma_zeros_value(s.drop_first());
    }
}

// ------------------------------------------------------------------------
// The shared core of the filters

/// The cell array shared by every filter variant: `n_cells` cells of
/// `n_buckets` buckets of `fingerprint_size` bits each, packed into one
/// bit store, bucket `(a, b)` at bits `[(a * n_buckets + b) * fingerprint_size, ...)`.
pub struct QhtCore {
    store: BitStore,
    n_cells: usize,
    n_buckets: usize,
    fingerprint_size: usize,
    pow_fingerprint_size: u64,
}

impl View for QhtCore {
    type V = QhtState;

    closed spec fn view(&self) -> QhtState {
        QhtState {
            n_cells: self.n_cells as nat,
            n_buckets: self.n_buckets as nat,
            fingerprint_size: self.fingerprint_size as nat,
            cells: cells_of(
                self.store@,
                self.n_cells as nat,
                self.n_buckets as nat,
                self.fingerprint_size as nat,
            ),
        }
    }
}

impl QhtCore {
    /// The representation invariant: parameters in range and a store of
    /// exactly `n_cells * n_buckets * fingerprint_size` bits.
    pub closed spec fn inv(&self) -> bool {
        &&& 1 <= self.fingerprint_size <= 8
        &&& self.n_buckets >= 1
        &&& self.n_cells >= 1
        &&& self.pow_fingerprint_size == pow2(self.fingerprint_size as nat)
        &&& self.store.wf()
        &&& self.store@.len() == self.n_cells * self.n_buckets * self.fingerprint_size
        &&& self.n_cells * self.n_buckets * self.fingerprint_size <= usize::MAX
    }

    pub open spec fn wf(&self) -> bool {
        self.inv() && self@.wf()
    }

    proof fn lemma_inv_wf(&self)
        requires
            self.inv(),
        ensures
            self@.wf(),
    {
        let s = self@;
        assert forall|a: int, b: int| 0 <= a < s.n_cells && 0 <= b < s.n_buckets implies #[trigger] s.cells[a][b]
            < pow2(s.fingerprint_size) by {
            let f = self.fingerprint_size as int;
            let k = a * self.n_buckets + b;
            lemma_bucket_range(a, b, self.n_cells as int, self.n_buckets as int, f);
            lemma_bits_value_bound(self.store@.subrange(k * f, k * f + f));
        }
    }

    /// A core with every bucket empty, for parameters that construction accepts.
    pub fn new(memory_size: usize, n_buckets: usize, fingerprint_size: usize) -> (r: QhtCore)
        requires
            config_error(memory_size as nat, n_buckets as nat, fingerprint_size as nat) is None,
        ensures
            r.wf(),
            r@.n_cells == memory_size as nat / (n_buckets as nat * fingerprint_size as nat),
            r@.n_buckets == n_buckets,
            r@.fingerprint_size == fingerprint_size,
            r@.is_empty(),
            r.total_bits() == r@.n_cells * n_buckets * fingerprint_size,
    {
        let per_bucket = memory_size / fingerprint_size;
        let n_cells = per_bucket / n_buckets;
        proof {
            let m = memory_size as int;
            let f = fingerprint_size as int;
            let b = n_buckets as int;
            let c = n_cells as int;
            let q = per_bucket as int;
            lemma_div_denominator(m, f, b);
            assert(f * b == b * f) by (nonlinear_arith);
            lemma_fundamental_div_mod(m, f);
            lemma_fundamental_div_mod(q, b);
            assert(c * b <= q) by (nonlinear_arith)
                requires
                    q == b * c + q % b,
                    q % b >= 0,
            ;
            assert(c * b * f <= m) by (nonlinear_arith)
                requires
                    c * b <= q,
                    m == f * q + m % f,
                    m % f >= 0,
                    f >= 1,
            ;
            lemma2_to64();
            lemma_u64_pow2_no_overflow(fingerprint_size as nat);
            lemma_u64_shl_is_mul(1, fingerprint_size as u64);
        }
        let pow_fingerprint_size = 1u64 << fingerprint_size as u64;
        let total = n_cells * n_buckets * fingerprint_size;
        let store = BitStore::with_capacity(total);
        let r = QhtCore { store, n_cells, n_buckets, fingerprint_size, pow_fingerprint_size };
        proof {
            lemma_zero_cells(store@, n_cells as nat, n_buckets as nat, fingerprint_size as nat);
            r.lemma_inv_wf();
        }
        r
    }

    /// The number of bits that the cells take up.
    pub closed spec fn total_bits(&self) -> nat {
        self.store@.len()
    }

    /// The cells take up exactly `n_cells * n_buckets * fingerprint_size` bits.
    pub proof fn lemma_total_bits(&self)
        requires
            self.wf(),
        ensures
            self.total_bits() == self@.n_cells * self@.n_buckets * self@.fingerprint_size,
    {
    }

    /// Builds a core, or says which parameter is out of range.
    pub fn try_new(memory_size: usize, n_buckets: usize, fingerprint_size: usize) -> (r: Result<
        QhtCore,
        ConfigError,
    >)
        ensures
            match r {
                Ok(c) => {
                    &&& config_error(memory_size as nat, n_buckets as nat, fingerprint_size as nat)
                        is None
                    &&& c.wf()
                    &&& c@.n_cells == memory_size as nat / (n_buckets as nat
                        * fingerprint_size as nat)
                    &&& c@.n_buckets == n_buckets
                    &&& c@.fingerprint_size == fingerprint_size
                    &&& c@.is_empty()
                    &&& c.total_bits() == c@.n_cells * n_buckets * fingerprint_size
                },
                Err(err) => config_error(memory_size as nat, n_buckets as nat, fingerprint_size as nat)
                    == Some(err),
            },
    {
        if fingerprint_size > FINGERPRINT_SIZE_LIMIT {
            return Err(ConfigError::FingerprintTooLarge);
        } else if fingerprint_size == 0 {
            return Err(ConfigError::FingerprintZero);
        }
        if n_buckets == 0 {
            return Err(ConfigError::NoBuckets);
        }
        let n_cells = memory_size / fingerprint_size / n_buckets;
        proof {
            lemma_div_denominator(memory_size as int, fingerprint_size as int, n_buckets as int);
            assert(fingerprint_size * n_buckets == n_buckets * fingerprint_size) by (nonlinear_arith);
        }
        if n_cells == 0 {
            return Err(ConfigError::MemoryTooSmall);
        }
        Ok(QhtCore::new(memory_size, n_buckets, fingerprint_size))
    }

    /// Number of cells.
    pub fn n_cells(&self) -> (r: usize)
        ensures
            r == self@.n_cells,
    {
        self.n_cells
    }

    /// Number of buckets in a cell.
    pub fn n_buckets(&self) -> (r: usize)
        ensures
            r == self@.n_buckets,
    {
        self.n_buckets
    }

    /// Width of a fingerprint, in bits.
    pub fn fingerprint_size(&self) -> (r: usize)
        ensures
            r == self@.fingerprint_size,
    {
        self.fingerprint_size
    }

    /// The fingerprint stored in bucket `bucket_number` of cell `address`.
    pub fn get_fingerprint_from_bucket(&self, address: usize, bucket_number: usize) -> (r: u64)
        requires
            self.wf(),
            address < self@.n_cells,
            bucket_number < self@.n_buckets,
        ensures
            r == self@.cells[address as int][bucket_number as int],
    {
        proof {
            lemma_bucket_range(
                address as int,
                bucket_number as int,
                self.n_cells as int,
                self.n_buckets as int,
                self.fingerprint_size as int,
            );
        }
        let offset = (address * self.n_buckets + bucket_number) * self.fingerprint_size;
        self.store.extract(offset, self.fingerprint_size)
    }

    /// Writes `fingerprint` into bucket `bucket_number` of cell `address`.
    pub fn insert_fingerprint_in_bucket(
        &mut self,
        address: usize,
        bucket_number: usize,
        fingerprint: u64,
    )
        requires
            old(self).wf(),
            address < old(self)@.n_cells,
            bucket_number < old(self)@.n_buckets,
            fingerprint < pow2(old(self)@.fingerprint_size),
        ensures
            final(self).wf(),
            final(self)@ == old(self)@.with_cell(
                address as int,
                old(self)@.cells[address as int].update(bucket_number as int, fingerprint as nat),
            ),
    {
        let ghost before = self@;
        let ghost bits = self.store@;
        proof {
            lemma_bucket_range(
                address as int,
                bucket_number as int,
                self.n_cells as int,
                self.n_buckets as int,
                self.fingerprint_size as int,
            );
        }
        let offset = (address * self.n_buckets + bucket_number) * self.fingerprint_size;
        self.store.insert(fingerprint, offset, self.fingerprint_size);
        proof {
            lemma_write_bucket(
                bits,
                self.n_cells as nat,
                self.n_buckets as nat,
                self.fingerprint_size as nat,
                address as int,
                bucket_number as int,
                fingerprint,
            );
            assert(self@.cells =~= before.with_cell(
                address as int,
                before.cells[address as int].update(bucket_number as int, fingerprint as nat),
            ).cells);
            self.lemma_inv_wf();
        }
    }

    /// Whether some bucket of cell `address` holds `fingerprint`.
    pub fn in_cell(&self, address: usize, fingerprint: u64) -> (r: bool)
        requires
            self.wf(),
            address < self@.n_cells,
        ensures
            r == self@.cells[address as int].contains(fingerprint as nat),
    {
        let ghost cell = self@.cells[address as int];
        let n_buckets = self.n_buckets;
        for idx in 0..n_buckets
            invariant
                self.wf(),
                n_buckets == self@.n_buckets,
                address < self@.n_cells,
                cell == self@.cells[address as int],
                forall|j: int| 0 <= j < idx ==> cell[j] != fingerprint as nat,
        {
            if self.get_fingerprint_from_bucket(address, idx) == fingerprint {
                return true;
            }
        }
        false
    }

    /// The fingerprint of `e`.
    pub fn get_fingerprint(&self, e: Element) -> (r: u64)
        requires
            self.wf(),
        ensures
            r == self@.fingerprint(e),
            1 <= r < pow2(self@.fingerprint_size),
    {
        let ghost pow = pow2(self.fingerprint_size as nat);
        proof {
            lemma2_to64();
            lemma_pow2_pos(self.fingerprint_size as nat);
            assert(pow >= 2) by {
                vstd::arithmetic::power2::lemma_pow2_strictly_increases(0, self.fingerprint_size as nat);
            }
            lemma_fingerprint_range(e, pow, 0);
        }
        let mut counter: u64 = 0;
        loop
            invariant
                self.wf(),
                pow == pow2(self.fingerprint_size as nat),
                self.pow_fingerprint_size == pow,
                pow >= 2,
                fingerprint_from(e, pow, counter) == fingerprint_from(e, pow, 0),
                1 <= fingerprint_from(e, pow, 0) < pow,
            decreases u64::MAX - counter,
        {
            let v = get_hash(e, 2, counter);
            let fingerprint = v % self.pow_fingerprint_size;
            if fingerprint != 0 {
                return fingerprint;
            }
            if counter == u64::MAX {
                return 1;
            }
            counter = counter + 1;
        }
    }

    /// The cell that `e` maps to.
    pub fn address(&self, e: Element) -> (r: usize)
        requires
            self.wf(),
        ensures
            r == self@.address(e),
            r < self@.n_cells,
    {
        let h = get_hash(e, 1, 0);
        (h % (self.n_cells as u64)) as usize
    }

    /// Writes `fingerprint` into the first empty bucket of cell `address`
    /// and returns true; returns false, and writes nothing, when the cell
    /// has no empty bucket.
    pub fn insert_empty(&mut self, address: usize, fingerprint: u64) -> (r: bool)
        requires
            old(self).wf(),
            address < old(self)@.n_cells,
            fingerprint < pow2(old(self)@.fingerprint_size),
        ensures
            final(self).wf(),
            r == old(self)@.cells[address as int].contains(0),
            r ==> exists|i: int|
                is_first_empty(old(self)@.cells[address as int], i) && final(self)@ == old(
                    self,
                )@.with_cell(
                    address as int,
                    old(self)@.cells[address as int].update(i, fingerprint as nat),
                ),
            !r ==> final(self)@ == old(self)@,
    {
        let ghost cell = self@.cells[address as int];
        let n_buckets = self.n_buckets;
        for idx in 0..n_buckets
            invariant
                self.wf(),
                n_buckets == self@.n_buckets,
                address < self@.n_cells,
                self@ == old(self)@,
                cell == self@.cells[address as int],
                fingerprint < pow2(self@.fingerprint_size),
                forall|j: int| 0 <= j < idx ==> #[trigger] cell[j] != 0,
        {
            if self.get_fingerprint_from_bucket(address, idx) == 0 {
                self.insert_fingerprint_in_bucket(address, idx, fingerprint);
                assert(is_first_empty(cell, idx as int));
                return true;
            }
        }
        assert(!cell.contains(0));
        false
    }

    /// Shifts cell `address` down by one bucket, dropping the content of
    /// bucket 0, and writes `fingerprint` into the last bucket.
    pub fn insert_fingerprint_in_last_bucket(&mut self, address: usize, fingerprint: u64)
        requires
            old(self).wf(),
            address < old(self)@.n_cells,
            fingerprint < pow2(old(self)@.fingerprint_size),
        ensures
            final(self).wf(),
            final(self)@ == old(self)@.with_cell(
                address as int,
                old(self)@.cells[address as int].drop_first().push(fingerprint as nat),
            ),
    {
        let ghost s0 = self@;
        let ghost c0 = s0.cells[address as int];
        let last_bucket = self.n_buckets - 1;
        assert(s0.cells =~= s0.with_cell(
            address as int,
            Seq::new(s0.n_buckets, |j: int| if j < 0 { c0[j + 1] } else { c0[j] }),
        ).cells) by {
            assert(c0 =~= Seq::new(s0.n_buckets, |j: int| if j < 0 { c0[j + 1] } else { c0[j] }));
        }
        for prev in 0..last_bucket
            invariant
                self.wf(),
                address < self@.n_cells,
                last_bucket == self@.n_buckets - 1,
                s0.n_buckets == self@.n_buckets,
                s0.wf(),
                fingerprint < pow2(self@.fingerprint_size),
                c0 == s0.cells[address as int],
                self@ == s0.with_cell(
                    address as int,
                    Seq::new(s0.n_buckets, |j: int| if j < prev { c0[j + 1] } else { c0[j] }),
                ),
        {
            let idx = prev + 1;
            let fg = self.get_fingerprint_from_bucket(address, idx);
            let ghost before = self@;
            self.insert_fingerprint_in_bucket(address, prev, fg);
            assert(self@.cells =~= s0.with_cell(
                address as int,
                Seq::new(s0.n_buckets, |j: int| if j < prev + 1 { c0[j + 1] } else { c0[j] }),
            ).cells) by {
                assert(before.cells[address as int].update(prev as int, fg as nat) =~= Seq::new(
                    s0.n_buckets,
                    |j: int| if j < prev + 1 { c0[j + 1] } else { c0[j] },
                ));
            }
        }
        let ghost before = self@;
        self.insert_fingerprint_in_bucket(address, last_bucket, fingerprint);
        assert(self@.cells =~= s0.with_cell(
            address as int,
            c0.drop_first().push(fingerprint as nat),
        ).cells) by {
            assert(before.cells[address as int].update(last_bucket as int, fingerprint as nat)
                =~= c0.drop_first().push(fingerprint as nat));
        }
    }
}

} // verus!
