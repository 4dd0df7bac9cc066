//! Identifiers of programs and messages.
//!
//! Both identifiers are 32-byte arrays, as in `gear_core::ids`. The library
//! reasons about them through their byte sequences (`@`), and obtains them
//! from `gear_core` itself.
use vstd::prelude::*;

use crate::assoc::Order;

verus! {

/// Identifier of a program: 32 bytes.
#[derive(Clone, Copy, Debug, PartialEq, Eq, PartialOrd, Ord, Hash)]
pub struct ProgramId {
    pub bytes: [u8; 32],
}

/// Identifier of a message: 32 bytes.
#[derive(Clone, Copy, Debug, PartialEq, Eq, PartialOrd, Ord, Hash)]
pub struct MessageId {
    pub bytes: [u8; 32],
}

impl View for ProgramId {
    type V = Seq<u8>;

    open spec fn view(&self) -> Seq<u8> {
        self.bytes@
    }
}

impl View for MessageId {
    type V = Seq<u8>;

    open spec fn view(&self) -> Seq<u8> {
        self.bytes@
    }
}

/// Byte `i` (counting from the least significant) of `n`.
pub open spec fn le_byte(n: u64, i: int) -> u8 {
    ((n >> ((8 * i) as u64)) & 0xffu64) as u8
}

/// The 32 bytes of an identifier made from a `u64`: its little-endian bytes,
/// then zeros.
pub open spec fn id_bytes_of_u64(n: u64) -> Seq<u8> {
    Seq::new(32, |i: int| if i < 8 { le_byte(n, i) } else { 0u8 })
}

/// Two numbers whose identifiers are equal are equal.
pub proof fn lemma_id_bytes_of_u64_injective(a: u64, b: u64)
    requires
        id_bytes_of_u64(a) == id_bytes_of_u64(b),
    ensures
        a == b,
{
    assert forall|i: int| 0 <= i < 8 implies le_byte(a, i) == le_byte(b, i) by {
        assert(id_bytes_of_u64(a)[i] == le_byte(a, i));
        assert(id_bytes_of_u64(b)[i] == le_byte(b, i));
        assert(id_bytes_of_u64(a)[i] == id_bytes_of_u64(b)[i]);
    }
    assert(le_byte(a, 0) == le_byte(b, 0));
    assert(le_byte(a, 1) == le_byte(b, 1));
    assert(le_byte(a, 2) == le_byte(b, 2));
    assert(le_byte(a, 3) == le_byte(b, 3));
    assert(le_byte(a, 4) == le_byte(b, 4));
    assert(le_byte(a, 5) == le_byte(b, 5));
    assert(le_byte(a, 6) == le_byte(b, 6));
    assert(le_byte(a, 7) == le_byte(b, 7));
    assert(a == b) by (bit_vector)
        requires
            ((a >> 0u64) & 0xffu64) as u8 == ((b >> 0u64) & 0xffu64) as u8,
            ((a >> 8u64) & 0xffu64) as u8 == ((b >> 8u64) & 0xffu64) as u8,
            ((a >> 16u64) & 0xffu64) as u8 == ((b >> 16u64) & 0xffu64) as u8,
            ((a >> 24u64) & 0xffu64) as u8 == ((b >> 24u64) & 0xffu64) as u8,
            ((a >> 32u64) & 0xffu64) as u8 == ((b >> 32u64) & 0xffu64) as u8,
            ((a >> 40u64) & 0xffu64) as u8 == ((b >> 40u64) & 0xffu64) as u8,
            ((a >> 48u64) & 0xffu64) as u8 == ((b >> 48u64) & 0xffu64) as u8,
            ((a >> 56u64) & 0xffu64) as u8 == ((b >> 56u64) & 0xffu64) as u8,
    ;
}

/// Calls `gear_core::ids::MessageId::from(u64)`, whose source writes the
/// number's little-endian bytes into the first eight bytes of a zeroed id.
#[verifier::external_body]
pub(crate) fn message_id_from_u64(n: u64) -> (id: MessageId)
    ensures
        id@ == id_bytes_of_u64(n),
{
    MessageId { bytes: gear_core::ids::MessageId::from(n).into_bytes() }
}

/// Calls `gear_core::ids::ProgramId::from(u64)`, whose source writes the
/// number's little-endian bytes into the first eight bytes of a zeroed id.
#[verifier::external_body]
pub(crate) fn program_id_from_u64(n: u64) -> (id: ProgramId)
    ensures
        id@ == id_bytes_of_u64(n),
{
    ProgramId { bytes: gear_core::ids::ProgramId::from(n).into_bytes() }
}

/// Calls `gear_core::ids::ProgramId::from([u8; 32])` (derived by
/// `derive_more::From`, it wraps the array), and reads the bytes back.
#[verifier::external_body]
pub(crate) fn program_id_from_bytes(bytes: [u8; 32]) -> (id: ProgramId)
    ensures
        id@ == bytes@,
{
    ProgramId { bytes: gear_core::ids::ProgramId::from(bytes).into_bytes() }
}

/// Program identifiers with the same bytes are the same identifier.
pub proof fn lemma_same_bytes_same_id(a: ProgramId, b: ProgramId)
    requires
        a@ == b@,
    ensures
        a == b,
{
    assert forall|i: int| 0 <= i < 32 implies a.bytes[i] == b.bytes[i] by {
        assert(a.bytes@[i] == b.bytes@[i]);
    }
    assert(a.bytes =~= b.bytes);
}

/// Whether the bytes `a` come before the bytes `b` in lexicographic order
/// (the order of `[u8; 32]`, and so of identifiers): at the first place
/// where they differ, `a` has the smaller byte.
pub open spec fn bytes_before(a: Seq<u8>, b: Seq<u8>) -> bool {
    exists|k: int|
        0 <= k < a.len() && k < b.len() && a[k] < b[k] && forall|j: int|
            0 <= j < k ==> #[trigger] a[j] == b[j]
}

/// The lexicographic order is transitive.
pub proof fn lemma_bytes_before_transitive(a: Seq<u8>, b: Seq<u8>, c: Seq<u8>)
    requires
        bytes_before(a, b),
        bytes_before(b, c),
    ensures
        bytes_before(a, c),
{
    let k1 = choose|k: int|
        0 <= k < a.len() && k < b.len() && a[k] < b[k] && forall|j: int|
            0 <= j < k ==> #[trigger] a[j] == b[j];
    let k2 = choose|k: int|
        0 <= k < b.len() && k < c.len() && b[k] < c[k] && forall|j: int|
            0 <= j < k ==> #[trigger] b[j] == c[j];
    let k = if k1 <= k2 { k1 } else { k2 };
    assert(a[k] < c[k]);
    assert forall|j: int| 0 <= j < k implies #[trigger] a[j] == c[j] by {
        assert(a[j] == b[j]);
        assert(b[j] == c[j]);
    }
}

impl ProgramId {
    /// Where this identifier stands relative to `other` in lexicographic
    /// order of their bytes.
    pub fn order_to(&self, other: &ProgramId) -> (r: Order)
        ensures
            r == Order::Before <==> bytes_before(self@, other@),
            r == Order::Same <==> self@ == other@,
            r == Order::After <==> bytes_before(other@, self@),
    {
        let mut i: usize = 0;
        while i < 32
            invariant
                i <= 32,
                forall|j: int| 0 <= j < i ==> self.bytes[j] == other.bytes[j],
            decreases 32 - i,
        {
            if self.bytes[i] != other.bytes[i] {
                proof {
                    assert forall|j: int| 0 <= j < i implies #[trigger] self@[j] == other@[j] by {
                        assert(self.bytes[j] == other.bytes[j]);
                    }
                    assert(self@ != other@) by {
                        assert(self@[i as int] != other@[i as int]);
                    }
                }
                if self.bytes[i] < other.bytes[i] {
                    proof {
                        assert(self@[i as int] < other@[i as int]);
                        lemma_bytes_before_asymmetric(self@, other@, i as int);
                    }
                    return Order::Before;
                } else {
                    proof {
                        assert(other@[i as int] < self@[i as int]);
                        assert forall|j: int| 0 <= j < i implies #[trigger] other@[j] == self@[j] by {
                            assert(self.bytes[j] == other.bytes[j]);
                        }
                        lemma_bytes_before_asymmetric(other@, self@, i as int);
                    }
                    return Order::After;
                }
            }
            i = i + 1;
        }
        proof {
            assert(self@ =~= other@);
            assert(!bytes_before(self@, other@));
            assert(!bytes_before(other@, self@));
        }
        Order::Same
    }
}

/// When `a` and `b` first differ at `i`, with `a` smaller there, `a` comes
/// before `b` and not the other way round.
pub proof fn lemma_bytes_before_asymmetric(a: Seq<u8>, b: Seq<u8>, i: int)
    requires
        0 <= i < a.len(),
        i < b.len(),
        a[i] < b[i],
        forall|j: int| 0 <= j < i ==> #[trigger] a[j] == b[j],
    ensures
        bytes_before(a, b),
        !bytes_before(b, a),
{
    if bytes_before(b, a) {
        let k = choose|k: int|
            0 <= k < b.len() && k < a.len() && b[k] < a[k] && forall|j: int|
                0 <= j < k ==> #[trigger] b[j] == a[j];
        if k < i {
            assert(a[k] == b[k]);
        } else if k > i {
            assert(b[i] == a[i]);
        }
    }
}

impl ProgramId {
    /// Whether two program identifiers hold the same bytes.
    pub fn same_as(&self, other: &ProgramId) -> (r: bool)
        ensures
            r == (self@ == other@),
    {
        let mut i: usize = 0;
        while i < 32
            invariant
                i <= 32,
                forall|j: int| 0 <= j < i ==> self.bytes[j] == other.bytes[j],
            decreases 32 - i,
        {
            if self.bytes[i] != other.bytes[i] {
                assert(self@[i as int] != other@[i as int]);
                return false;
            }
            i = i + 1;
        }
        assert(self@ =~= other@);
        true
    }
}

} // verus!
