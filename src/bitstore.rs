use rust_dense_bitset::DenseBitSetExtended;
use vstd::arithmetic::div_mod::{lemma_div_denominator, lemma_mod_breakdown, lemma_small_mod};
use vstd::arithmetic::power2::{lemma2_to64, lemma_pow2_pos, lemma_pow2_unfold, pow2};
use vstd::bits::{lemma_u64_pow2_no_overflow, lemma_u64_shl_is_mul};
use vstd::prelude::*;

verus! {

// ------------------------------------------------------------------------
// Bit strings and the integers they encode (little endian)

/// The unsigned integer whose binary digits, least significant first, are `s`.
pub open spec fn bits_value(s: Seq<bool>) -> nat
    decreases s.len(),
{
    if s.len() == 0 {
        0
    } else {
        (if s[0] { 1nat } else { 0nat }) + 2 * bits_value(s.drop_first())
    }
}

/// Binary digit `i` of `v`.
pub open spec fn bit_of(v: nat, i: nat) -> bool {
    (v / pow2(i)) % 2 == 1
}

/// The lowest `w` binary digits of `v`, least significant first.
pub open spec fn bits_of(v: nat, w: nat) -> Seq<bool> {
    Seq::new(w, |i: int| bit_of(v, i as nat))
}

/// Bit `i` of a bit string that reads as zero past its end.
pub open spec fn bit_at(s: Seq<bool>, i: int) -> bool {
    0 <= i < s.len() && s[i]
}

/// The `len` bits of `s` from `position` on, zeros past the end of `s`.
pub open spec fn window(s: Seq<bool>, position: int, len: nat) -> Seq<bool> {
    Seq::new(len, |j: int| bit_at(s, position + j))
}

/// `bits` with the `width` bits from `offset` on replaced by the lowest
/// `width` binary digits of `value`.
pub open spec fn overwrite(bits: Seq<bool>, value: nat, offset: int, width: nat) -> Seq<bool> {
    Seq::new(
        bits.len(),
        |i: int|
            if offset <= i < offset + width {
                bit_of(value % pow2(width), (i - offset) as nat)
            } else {
                bits[i]
            },
    )
}

/// A bit string of `w` bits encodes an integer below `2^w`.
pub proof fn lemma_bits_value_bound(s: Seq<bool>)
    ensures
        bits_value(s) < pow2(s.len()),
    decreases s.len(),
{
    if s.len() == 0 {
        lemma2_to64();
    } else {
        lemma_bits_value_bound(s.drop_first());
        lemma_pow2_unfold(s.len());
    }
}

/// Reading back the lowest `w` digits of `v` gives `v` modulo `2^w`.
pub proof fn lemma_bits_value_of(v: nat, w: nat)
    ensures
        bits_value(bits_of(v, w)) == v % pow2(w),
    decreases w,
{
    if w == 0 {
        lemma2_to64();
        assert(bits_of(v, w) =~= Seq::<bool>::empty());
    } else {
        let p = pow2((w - 1) as nat);
        lemma_pow2_unfold(w);
        lemma_pow2_pos((w - 1) as nat);
        lemma2_to64();
        assert forall|i: int| 0 <= i < w - 1 implies #[trigger] bits_of(v, w).drop_first()[i]
            == bits_of(v / 2, (w - 1) as nat)[i] by {
            lemma_pow2_unfold((i + 1) as nat);
            lemma_pow2_pos(i as nat);
            lemma_div_denominator(v as int, 2, pow2(i as nat) as int);
        }
        assert(bits_of(v, w).drop_first() =~= bits_of(v / 2, (w - 1) as nat));
        lemma_bits_value_of(v / 2, (w - 1) as nat);
        assert(bits_of(v, w)[0] == (v % 2 == 1));
        lemma_mod_breakdown(v as int, 2, p as int);
    }
}

// ------------------------------------------------------------------------
// The outside bit set

#[verifier::external_type_specification]
#[verifier::external_body]
pub struct ExDenseBitSetExtended(DenseBitSetExtended);

/// The first `size` bits of a `DenseBitSetExtended`'s words. The contracts
/// below read any bit past the size as zero, which holds of a bit set that
/// is `dense_sound`.
pub uninterp spec fn dense_bits(s: DenseBitSetExtended) -> Seq<bool>;

/// The bit set's words cover its size and no bit past its size is set.
/// Other methods of the bit set (clearing a bit past the end, `&=`) can
/// break this; `with_capacity` and `insert_u64` keep it.
pub uninterp spec fn dense_sound(s: DenseBitSetExtended) -> bool;

/// Relies on `DenseBitSetExtended::with_capacity`: a bit set of size zero
/// whose memory is reserved up front.
#[verifier::external_body]
fn dense_with_capacity(size: usize) -> (r: DenseBitSetExtended)
    ensures
        dense_sound(r),
        dense_bits(r) == Seq::<bool>::empty(),
{
    DenseBitSetExtended::with_capacity(size)
}

/// Relies on `DenseBitSetExtended::extract_u64`: the `length` bits from
/// `position` on, read as a little-endian integer, zeros past the size. It
/// panics on a length of zero or above 64, and can index past its words
/// when they do not cover its size.
#[verifier::external_body]
fn dense_extract(s: &DenseBitSetExtended, position: usize, length: usize) -> (r: u64)
    requires
        dense_sound(*s),
        1 <= length <= 64,
        position + length <= usize::MAX,
    ensures
        r as nat == bits_value(window(dense_bits(*s), position as int, length as nat)),
{
    s.extract_u64(position, length)
}

/// Relies on `DenseBitSetExtended::insert_u64`: the `length` bits from
/// `position` on become the digits of `value`, the size grows to cover them
/// and no other bit changes, on a bit set with no stale bits past its size.
/// It does not mask `value`, so it is called with a value that fits in
/// `length` bits. Its resizing and masks keep the bit set `dense_sound`.
#[verifier::external_body]
fn dense_insert(s: &mut DenseBitSetExtended, value: u64, position: usize, length: usize)
    requires
        dense_sound(*old(s)),
        1 <= length <= 64,
        value < pow2(length as nat),
        position + length <= usize::MAX,
    ensures
        dense_sound(*final(s)),
        dense_bits(*final(s)).len() == if dense_bits(*old(s)).len() >= position + length {
            dense_bits(*old(s)).len()
        } else {
            (position + length) as nat
        },
        window(dense_bits(*final(s)), position as int, length as nat) == bits_of(
            value as nat,
            length as nat,
        ),
        forall|i: int|
            !(position <= i < position + length) ==> bit_at(dense_bits(*final(s)), i) == bit_at(
                dense_bits(*old(s)),
                i,
            ),
{
    s.insert_u64(value, position, length)
}

// ------------------------------------------------------------------------
// BitStore

/// A fixed-length, zero-initialised bit buffer that reads and writes
/// unsigned integers of up to 64 bits at any bit offset.
pub struct BitStore {
    bits: DenseBitSetExtended,
    len: usize,
}

impl View for BitStore {
    type V = Seq<bool>;

    closed spec fn view(&self) -> Seq<bool> {
        Seq::new(self.len as nat, |i: int| bit_at(dense_bits(self.bits), i))
    }
}

impl BitStore {
    /// The store's internal invariant: the bit set is in the shape that its
    /// own constructor and writes leave it in, and nothing was ever written
    /// past the store's length.
    pub closed spec fn wf(&self) -> bool {
        &&& dense_sound(self.bits)
        &&& dense_bits(self.bits).len() <= self.len
    }

    /// A store of `n` bits, all zero.
    pub fn with_capacity(n: usize) -> (r: BitStore)
        ensures
            r.wf(),
            r@ == Seq::new(n as nat, |i: int| false),
    {
        let r = BitStore { bits: dense_with_capacity(n), len: n };
        assert(r@ =~= Seq::new(n as nat, |i: int| false));
        r
    }

    /// The length of the store, in bits.
    pub fn len(&self) -> (r: usize)
        ensures
            r == self@.len(),
    {
        self.len
    }

    /// The `width`-bit integer stored from bit `offset` on, least
    /// significant bit first.
    pub fn extract(&self, offset: usize, width: usize) -> (r: u64)
        requires
            self.wf(),
            width <= 64,
            offset + width <= self@.len(),
        ensures
            r as nat == bits_value(self@.subrange(offset as int, offset + width)),
    {
        if width == 0 {
            assert(self@.subrange(offset as int, offset + width) =~= Seq::<bool>::empty());
            return 0;
        }
        let r = dense_extract(&self.bits, offset, width);
        assert(window(dense_bits(self.bits), offset as int, width as nat) =~= self@.subrange(
            offset as int,
            (offset + width) as int,
        ));
        r
    }

    /// Overwrites the `width` bits from `offset` on with the low `width`
    /// bits of `value`; every other bit keeps its value.
    pub fn insert(&mut self, value: u64, offset: usize, width: usize)
        requires
            old(self).wf(),
            width <= 64,
            offset + width <= old(self)@.len(),
        ensures
            final(self).wf(),
            final(self)@ == overwrite(old(self)@, value as nat, offset as int, width as nat),
    {
        if width == 0 {
            assert(self@ =~= overwrite(self@, value as nat, offset as int, width as nat));
            return ;
        }
        proof {
            lemma2_to64();
        }
        let low = if width == 64 {
            proof {
                lemma_small_mod(value as nat, pow2(64));
            }
            value
        } else {
            proof {
                lemma_u64_pow2_no_overflow(width as nat);
                lemma_u64_shl_is_mul(1, width as u64);
            }
            value % (1u64 << width as u64)
        };
        assert(low as nat == value as nat % pow2(width as nat));
        proof {
            lemma_pow2_pos(width as nat);
        }
        let ghost before = self@;
        dense_insert(&mut self.bits, low, offset, width);
        let ghost w = window(dense_bits(self.bits), offset as int, width as nat);
        assert forall|i: int| 0 <= i < before.len() implies #[trigger] self@[i] == overwrite(
            before,
            value as nat,
            offset as int,
            width as nat,
        )[i] by {
            if offset <= i < offset + width {
                assert(w[i - offset] == self@[i]);
            }
        }
        assert(self@ =~= overwrite(before, value as nat, offset as int, width as nat));
    }
}

/// Writing a value that fits in `width` bits and reading the same region
/// back gives the value; every bit outside the region is unchanged.
pub proof fn lemma_insert_then_extract(bits: Seq<bool>, value: u64, offset: nat, width: nat)
    requires
        width <= 64,
        offset + width <= bits.len(),
        value < pow2(width),
    ensures
        bits_value(overwrite(bits, value as nat, offset as int, width).subrange(
            offset as int,
            (offset + width) as int,
        )) == value,
        overwrite(bits, value as nat, offset as int, width).len() == bits.len(),
        forall|i: int|
            0 <= i < bits.len() && !(offset <= i < offset + width) ==> #[trigger] overwrite(
                bits,
                value as nat,
                offset as int,
                width,
            )[i] == bits[i],
{
    let after = overwrite(bits, value as nat, offset as int, width);
    lemma_pow2_pos(width);
    lemma_small_mod(value as nat, pow2(width));
    assert(after.subrange(offset as int, (offset + width) as int) =~= bits_of(value as nat, width));
    lemma_bits_value_of(value as nat, width);
}

} // verus!
