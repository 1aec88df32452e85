//! Bit vectors over catalogue positions, and their byte form.

use bit_vec::BitVec;
use vstd::prelude::*;

verus! {

/// `bit_vec::BitVec`, a growable vector of bits.  A value is opaque here:
/// all that is said of one is said of its `bits`.
#[verifier::external_type_specification]
#[verifier::external_body]
#[verifier::reject_recursive_types(B)]
pub struct ExBitVec<B>(BitVec<B>);

/// The bits that a `bit_vec::BitVec` holds, in index order: as many as its
/// `len`, bit `i` being what `get(i)` reads.
pub uninterp spec fn bits(bv: BitVec<u32>) -> Seq<bool>;

/// Bit `k` of a byte, counted from the most significant bit: `k == 0` is
/// the bit worth 128, `k == 7` the bit worth 1.
pub open spec fn bit_of_byte(byte: u8, k: int) -> bool {
    if k == 0 {
        byte / 128 % 2 == 1
    } else if k == 1 {
        byte / 64 % 2 == 1
    } else if k == 2 {
        byte / 32 % 2 == 1
    } else if k == 3 {
        byte / 16 % 2 == 1
    } else if k == 4 {
        byte / 8 % 2 == 1
    } else if k == 5 {
        byte / 4 % 2 == 1
    } else if k == 6 {
        byte / 2 % 2 == 1
    } else {
        byte % 2 == 1
    }
}

/// The bits of a byte string: eight per byte, most significant bit first.
pub open spec fn bits_of_bytes(bytes: Seq<u8>) -> Seq<bool> {
    Seq::new(8 * bytes.len(), |i: int| bit_of_byte(bytes[i / 8], i % 8))
}

/// Bit `i` of `s`, reading every position past the end as `false`.
pub open spec fn bit_at(s: Seq<bool>, i: int) -> bool {
    0 <= i < s.len() && s[i]
}

/// The worth of one bit of a byte, counted from the most significant bit.
pub open spec fn bit_worth(b: bool, k: int) -> int {
    if !b {
        0
    } else if k == 0 {
        128
    } else if k == 1 {
        64
    } else if k == 2 {
        32
    } else if k == 3 {
        16
    } else if k == 4 {
        8
    } else if k == 5 {
        4
    } else if k == 6 {
        2
    } else {
        1
    }
}

/// The byte that packs bits `8 * j .. 8 * j + 8` of `s`, first bit highest;
/// positions past the end of `s` count as `false`.
pub open spec fn byte_of_bits(s: Seq<bool>, j: int) -> u8 {
    (bit_worth(bit_at(s, 8 * j), 0) + bit_worth(bit_at(s, 8 * j + 1), 1) + bit_worth(
        bit_at(s, 8 * j + 2),
        2,
    ) + bit_worth(bit_at(s, 8 * j + 3), 3) + bit_worth(bit_at(s, 8 * j + 4), 4) + bit_worth(
        bit_at(s, 8 * j + 5),
        5,
    ) + bit_worth(bit_at(s, 8 * j + 6), 6) + bit_worth(bit_at(s, 8 * j + 7), 7)) as u8
}

/// The byte string of a bit sequence: as many bytes as hold all bits, the
/// unused low bits of the last byte zero.
pub open spec fn bytes_of_bits(s: Seq<bool>) -> Seq<u8> {
    Seq::new(((s.len() + 7) / 8) as nat, |j: int| byte_of_bits(s, j))
}

/// `s` followed by as many `false` bits as make its length `len`; `s` itself
/// where it is already that long.
pub open spec fn padded(s: Seq<bool>, len: nat) -> Seq<bool> {
    if s.len() >= len {
        s
    } else {
        s + Seq::new((len - s.len()) as nat, |i: int| false)
    }
}

/// `BitVec::from_elem`: a vector of `len` bits, each equal to `bit`.
#[verifier::external_body]
fn bv_from_elem(len: usize, bit: bool) -> (bv: BitVec)
    ensures
        bits(bv) == Seq::new(len as nat, |i: int| bit),
{
    BitVec::from_elem(len, bit)
}

/// `BitVec::from_bytes`: each byte becomes eight bits, the most significant
/// first.  The call panics where the bit count overflows `usize`.
#[verifier::external_body]
fn bv_from_bytes(bytes: &[u8]) -> (bv: BitVec)
    requires
        bytes@.len() * 8 <= usize::MAX,
    ensures
        bits(bv) == bits_of_bytes(bytes@),
{
    BitVec::from_bytes(bytes)
}

/// `BitVec::to_bytes`: the first bit becomes the high-order bit of the first
/// byte; the last byte is filled up with zero bits.
#[verifier::external_body]
fn bv_to_bytes(bv: &BitVec) -> (bytes: Vec<u8>)
    ensures
        bytes@ == bytes_of_bits(bits(*bv)),
{
    bv.to_bytes()
}

/// `BitVec::len`: the number of bits.
#[verifier::external_body]
fn bv_len(bv: &BitVec) -> (n: usize)
    ensures
        n == bits(*bv).len(),
{
    bv.len()
}

/// `BitVec::get`: the bit at `i`, or `None` past the end.
#[verifier::external_body]
fn bv_get(bv: &BitVec, i: usize) -> (bit: Option<bool>)
    ensures
        bit == if i < bits(*bv).len() {
            Some(bits(*bv)[i as int])
        } else {
            None
        },
{
    bv.get(i)
}

/// `BitVec::set`: writes the bit at `i`.  The call panics past the end.
#[verifier::external_body]
fn bv_set(bv: &mut BitVec, i: usize, x: bool)
    requires
        i < bits(*old(bv)).len(),
    ensures
        bits(*final(bv)) == bits(*old(bv)).update(i as int, x),
{
    bv.set(i, x)
}

/// `BitVec::negate`: flips every bit.
#[verifier::external_body]
fn bv_negate(bv: &mut BitVec)
    ensures
        bits(*final(bv)) == Seq::new(bits(*old(bv)).len(), |i: int| !bits(*old(bv))[i]),
{
    bv.negate()
}

/// `BitVec::and`: bitwise AND with `other` in place; the result says whether
/// any bit changed.  The call panics where the lengths differ.
#[verifier::external_body]
fn bv_and(bv: &mut BitVec, other: &BitVec) -> (changed: bool)
    requires
        bits(*old(bv)).len() == bits(*other).len(),
    ensures
        bits(*final(bv)) == Seq::new(
            bits(*old(bv)).len(),
            |i: int| bits(*old(bv))[i] && bits(*other)[i],
        ),
        changed == (bits(*final(bv)) != bits(*old(bv))),
{
    bv.and(other)
}

/// `BitVec::none`: whether no bit is set.
#[verifier::external_body]
fn bv_none(bv: &BitVec) -> (none: bool)
    ensures
        none == (forall|i: int| 0 <= i < bits(*bv).len() ==> !bits(*bv)[i]),
{
    bv.none()
}

/// `BitVec::grow`: appends `n` bits equal to `value`.  The call panics where
/// the new length overflows `usize`.
#[verifier::external_body]
fn bv_grow(bv: &mut BitVec, n: usize, value: bool)
    requires
        bits(*old(bv)).len() + n <= usize::MAX,
    ensures
        bits(*final(bv)) == bits(*old(bv)) + Seq::new(n as nat, |i: int| value),
{
    bv.grow(n, value)
}

/// `BitVec::clone`: a vector with the same bits.
#[verifier::external_body]
fn bv_clone(bv: &BitVec) -> (copy: BitVec)
    ensures
        bits(copy) == bits(*bv),
{
    bv.clone()
}

/// A vector of bits, indexed from zero.  Its view is the sequence of its bits.
pub struct Bitset {
    bv: BitVec,
}

impl View for Bitset {
    type V = Seq<bool>;

    closed spec fn view(&self) -> Seq<bool> {
        bits(self.bv)
    }
}

impl Clone for Bitset {
    fn clone(&self) -> (copy: Self)
        ensures
            copy@ == self@,
    {
        Bitset { bv: bv_clone(&self.bv) }
    }
}

impl Bitset {
    /// A bitset of `len` bits, each equal to `bit`.
    pub fn from_elem(len: usize, bit: bool) -> (set: Bitset)
        ensures
            set@ == Seq::new(len as nat, |i: int| bit),
    {
        Bitset { bv: bv_from_elem(len, bit) }
    }

    /// Decodes a byte string: eight bits per byte, most significant first.
    pub fn from_bytes(bytes: &[u8]) -> (set: Bitset)
        requires
            bytes@.len() * 8 <= usize::MAX,
        ensures
            set@ == bits_of_bytes(bytes@),
    {
        Bitset { bv: bv_from_bytes(bytes) }
    }

    /// Encodes the bits as bytes, the first bit highest in the first byte.
    /// Where the length is no multiple of eight, the last byte ends in zero
    /// bits.
    pub fn to_bytes(&self) -> (bytes: Vec<u8>)
        ensures
            bytes@ == bytes_of_bits(self@),
    {
        bv_to_bytes(&self.bv)
    }

    /// The number of bits.
    pub fn len(&self) -> (n: usize)
        ensures
            n == self@.len(),
    {
        bv_len(&self.bv)
    }

    /// The bit at `i`, or `None` where `i` is past the end.
    pub fn get(&self, i: usize) -> (bit: Option<bool>)
        ensures
            bit == if i < self@.len() {
                Some(self@[i as int])
            } else {
                None
            },
    {
        bv_get(&self.bv, i)
    }

    /// Whether bit `i` is set; a position past the end is not.
    pub fn is_set(&self, i: usize) -> (set: bool)
        ensures
            set == bit_at(self@, i as int),
    {
        match bv_get(&self.bv, i) {
            Some(bit) => bit,
            None => false,
        }
    }

    /// Writes bit `i`.
    pub fn set(&mut self, i: usize, bit: bool)
        requires
            i < old(self)@.len(),
        ensures
            final(self)@ == old(self)@.update(i as int, bit),
    {
        bv_set(&mut self.bv, i, bit)
    }

    /// Appends `n` bits equal to `bit`.
    pub fn grow(&mut self, n: usize, bit: bool)
        requires
            old(self)@.len() + n <= usize::MAX,
        ensures
            final(self)@ == old(self)@ + Seq::new(n as nat, |i: int| bit),
    {
        bv_grow(&mut self.bv, n, bit)
    }

    /// Flips every bit in place.
    pub fn negate(&mut self)
        ensures
            final(self)@ == negated(old(self)@),
    {
        bv_negate(&mut self.bv)
    }

    /// Bitwise AND with `other`, in place.  Both must have the same length.
    pub fn intersect(&mut self, other: &Bitset)
        requires
            old(self)@.len() == other@.len(),
        ensures
            final(self)@ == intersection(old(self)@, other@),
    {
        let _ = bv_and(&mut self.bv, &other.bv);
    }

    /// Whether at least one bit is set.
    pub fn any_set(&self) -> (any: bool)
        ensures
            any == has_set_bit(self@),
    {
        !bv_none(&self.bv)
    }
}

/// Every bit of `s` flipped.
pub open spec fn negated(s: Seq<bool>) -> Seq<bool> {
    Seq::new(s.len(), |i: int| !s[i])
}

/// The bitwise AND of `a` and `b`, as long as `a`.
pub open spec fn intersection(a: Seq<bool>, b: Seq<bool>) -> Seq<bool> {
    Seq::new(a.len(), |i: int| a[i] && b[i])
}

/// Whether some bit of `s` is set.
pub open spec fn has_set_bit(s: Seq<bool>) -> bool {
    exists|i: int| 0 <= i < s.len() && s[i]
}

/// The longer of two lengths.
pub open spec fn longer(a: nat, b: nat) -> nat {
    if a >= b {
        a
    } else {
        b
    }
}

/// Grows the shorter of two bitsets with `false` bits until both are equally
/// long.  No bit that either held changes.
pub fn pad_to_match(a: &mut Bitset, b: &mut Bitset)
    ensures
        final(a)@ == padded(old(a)@, longer(old(a)@.len(), old(b)@.len())),
        final(b)@ == padded(old(b)@, longer(old(a)@.len(), old(b)@.len())),
{
    let a_len = a.len();
    let b_len = b.len();
    if a_len > b_len {
        b.grow(a_len - b_len, false);
    } else {
        a.grow(b_len - a_len, false);
    }
}

/// Whether bit `pos` of a byte string is set; a position past the last byte
/// is not.
pub open spec fn bit_in_bytes(bytes: Seq<u8>, pos: int) -> bool {
    bit_at(bits_of_bytes(bytes), pos)
}

/// The byte string that holds the bits of `bytes` and bit `pos` besides,
/// grown with zero bytes as far as `pos` needs.
pub open spec fn bytes_with_bit(bytes: Seq<u8>, pos: nat) -> Seq<u8> {
    bytes_of_bits(padded(bits_of_bytes(bytes), pos + 1).update(pos as int, true))
}

/// Whether a bit position can be held in a byte string that is still
/// decodable: the bits of all bytes up to its own must be countable.
pub open spec fn position_fits(pos: usize) -> bool {
    (pos / 8 + 1) * 8 <= usize::MAX
}

/// Whether the bits of a byte string can be counted in a `usize`.
pub open spec fn decodable(bytes: Seq<u8>) -> bool {
    bytes.len() * 8 <= usize::MAX
}

/// Whether a byte string can be decoded.
pub fn can_decode(bytes: &[u8]) -> (ok: bool)
    ensures
        ok == decodable(bytes@),
{
    bytes.len() <= usize::MAX / 8
}

/// Whether a bit position can be set in a byte string.
pub fn can_hold_position(pos: usize) -> (ok: bool)
    ensures
        ok == position_fits(pos),
{
    pos / 8 < usize::MAX / 8
}

/// Reads bit `pos` of a byte string.
pub fn test_bit(bytes: &[u8], pos: usize) -> (set: bool)
    requires
        decodable(bytes@),
    ensures
        set == bit_in_bytes(bytes@, pos as int),
{
    Bitset::from_bytes(bytes).is_set(pos)
}

/// Sets bit `pos` of a byte string, which grows as far as `pos` needs.
pub fn set_bit(bytes: &[u8], pos: usize) -> (out: Vec<u8>)
    requires
        decodable(bytes@),
        position_fits(pos),
    ensures
        out@ == bytes_with_bit(bytes@, pos as nat),
        decodable(out@),
{
    let mut set = Bitset::from_bytes(bytes);
    let len = set.len();
    if pos >= len {
        set.grow(pos - len + 1, false);
    }
    set.set(pos, true);
    proof {
        lemma_bytes_with_bit(bytes@, pos as nat);
    }
    set.to_bytes()
}

/// Setting a bit sets that bit and changes no other; the byte string grows
/// to the byte of the bit where it was shorter.
pub proof fn lemma_bytes_with_bit(bytes: Seq<u8>, pos: nat)
    ensures
        bytes_with_bit(bytes, pos).len() == longer(bytes.len(), pos / 8 + 1),
        forall|p: int|
            #[trigger] bit_in_bytes(bytes_with_bit(bytes, pos), p) == (p == pos || bit_in_bytes(
                bytes,
                p,
            )),
{
    let s = padded(bits_of_bytes(bytes), pos + 1).update(pos as int, true);
    lemma_decode_encode(s);
}

/// Reading bit `k` of the byte packed from eight bits gives back bit `k`.
proof fn lemma_bit_of_packed(
    b0: bool,
    b1: bool,
    b2: bool,
    b3: bool,
    b4: bool,
    b5: bool,
    b6: bool,
    b7: bool,
    k: int,
)
    requires
        0 <= k < 8,
    ensures
        bit_of_byte(
            (bit_worth(b0, 0) + bit_worth(b1, 1) + bit_worth(b2, 2) + bit_worth(b3, 3) + bit_worth(
                b4,
                4,
            ) + bit_worth(b5, 5) + bit_worth(b6, 6) + bit_worth(b7, 7)) as u8,
            k,
        ) == if k == 0 {
            b0
        } else if k == 1 {
            b1
        } else if k == 2 {
            b2
        } else if k == 3 {
            b3
        } else if k == 4 {
            b4
        } else if k == 5 {
            b5
        } else if k == 6 {
            b6
        } else {
            b7
        },
{
}

/// Packing the eight bits read from a byte gives back the byte.
proof fn lemma_packed_of_bits(byte: u8)
    ensures
        bit_worth(bit_of_byte(byte, 0), 0) + bit_worth(bit_of_byte(byte, 1), 1) + bit_worth(
            bit_of_byte(byte, 2),
            2,
        ) + bit_worth(bit_of_byte(byte, 3), 3) + bit_worth(bit_of_byte(byte, 4), 4) + bit_worth(
            bit_of_byte(byte, 5),
            5,
        ) + bit_worth(bit_of_byte(byte, 6), 6) + bit_worth(bit_of_byte(byte, 7), 7) == byte,
{
    assert((if byte / 128u8 % 2u8 == 1u8 {
        128u8
    } else {
        0u8
    }) + (if byte / 64u8 % 2u8 == 1u8 {
        64u8
    } else {
        0u8
    }) + (if byte / 32u8 % 2u8 == 1u8 {
        32u8
    } else {
        0u8
    }) + (if byte / 16u8 % 2u8 == 1u8 {
        16u8
    } else {
        0u8
    }) + (if byte / 8u8 % 2u8 == 1u8 {
        8u8
    } else {
        0u8
    }) + (if byte / 4u8 % 2u8 == 1u8 {
        4u8
    } else {
        0u8
    }) + (if byte / 2u8 % 2u8 == 1u8 {
        2u8
    } else {
        0u8
    }) + (if byte % 2u8 == 1u8 {
        1u8
    } else {
        0u8
    }) == byte) by (bit_vector);
}

/// Decoding what was encoded gives the bits back, followed by `false` up to
/// the next multiple of eight: encoding loses no bit and invents none.
pub proof fn lemma_decode_encode(s: Seq<bool>)
    ensures
        bits_of_bytes(bytes_of_bits(s)) == padded(s, 8 * ((s.len() + 7) / 8) as nat),
        forall|i: int| 0 <= i < s.len() ==> bits_of_bytes(bytes_of_bits(s))[i] == s[i],
{
    let bytes = bytes_of_bits(s);
    let back = bits_of_bytes(bytes);
    let full = padded(s, 8 * ((s.len() + 7) / 8) as nat);
    assert forall|i: int| 0 <= i < back.len() implies back[i] == full[i] by {
        let j = i / 8;
        let k = i % 8;
        lemma_bit_of_packed(
            bit_at(s, 8 * j),
            bit_at(s, 8 * j + 1),
            bit_at(s, 8 * j + 2),
            bit_at(s, 8 * j + 3),
            bit_at(s, 8 * j + 4),
            bit_at(s, 8 * j + 5),
            bit_at(s, 8 * j + 6),
            bit_at(s, 8 * j + 7),
            k,
        );
    }
}

/// Encoding what was decoded gives the bytes back.
pub proof fn lemma_encode_decode(bytes: Seq<u8>)
    ensures
        bytes_of_bits(bits_of_bytes(bytes)) == bytes,
{
    let s = bits_of_bytes(bytes);
    let back = bytes_of_bits(s);
    assert forall|j: int| 0 <= j < bytes.len() implies back[j] == bytes[j] by {
        lemma_packed_of_bits(bytes[j]);
    }
}

} // verus!
