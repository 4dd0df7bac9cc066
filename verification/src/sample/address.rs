//! Addresses of actors in a sample.
use vstd::prelude::*;
use vstd::string::StrSliceExecFns;

use crate::assoc::Order;
use crate::ids::{
    id_bytes_of_u64, lemma_same_bytes_same_id, program_id_from_bytes, program_id_from_u64,
    ProgramId,
};

verus! {

/// A keyword that names an actor within a test.
pub type Keyword = String;

/// Whether the text `a` comes before the text `b` in the order of strings:
/// at the first place where they differ `a` has the smaller character, or
/// `a` is a proper prefix of `b`.
pub open spec fn text_before(a: Seq<char>, b: Seq<char>) -> bool {
    ||| exists|k: int|
        0 <= k < a.len() && k < b.len() && (a[k] as u32) < (b[k] as u32) && forall|j: int|
            0 <= j < k ==> #[trigger] a[j] == b[j]
    ||| a.len() < b.len() && forall|j: int| 0 <= j < a.len() ==> #[trigger] a[j] == b[j]
}

/// The order of texts is transitive.
pub proof fn lemma_text_before_transitive(a: Seq<char>, b: Seq<char>, c: Seq<char>)
    requires
        text_before(a, b),
        text_before(b, c),
    ensures
        text_before(a, c),
{
    if exists|k: int|
        0 <= k < a.len() && k < b.len() && (a[k] as u32) < (b[k] as u32) && forall|j: int|
            0 <= j < k ==> #[trigger] a[j] == b[j] {
        let k1 = choose|k: int|
            0 <= k < a.len() && k < b.len() && (a[k] as u32) < (b[k] as u32) && forall|j: int|
                0 <= j < k ==> #[trigger] a[j] == b[j];
        if exists|k: int|
            0 <= k < b.len() && k < c.len() && (b[k] as u32) < (c[k] as u32) && forall|j: int|
                0 <= j < k ==> #[trigger] b[j] == c[j] {
            let k2 = choose|k: int|
                0 <= k < b.len() && k < c.len() && (b[k] as u32) < (c[k] as u32) && forall|j: int|
                    0 <= j < k ==> #[trigger] b[j] == c[j];
            let k = if k1 <= k2 { k1 } else { k2 };
            if k1 < k2 {
                assert(b[k1] == c[k1]);
            } else if k2 < k1 {
                assert(a[k2] == b[k2]);
            }
            assert forall|j: int| 0 <= j < k implies #[trigger] a[j] == c[j] by {
                assert(a[j] == b[j]);
                assert(b[j] == c[j]);
            }
            assert((a[k] as u32) < (c[k] as u32));
        } else {
            assert(b[k1] == c[k1]);
            assert forall|j: int| 0 <= j < k1 implies #[trigger] a[j] == c[j] by {
                assert(a[j] == b[j]);
                assert(b[j] == c[j]);
            }
            assert((a[k1] as u32) < (c[k1] as u32));
        }
    } else {
        if exists|k: int|
            0 <= k < b.len() && k < c.len() && (b[k] as u32) < (c[k] as u32) && forall|j: int|
                0 <= j < k ==> #[trigger] b[j] == c[j] {
            let k2 = choose|k: int|
                0 <= k < b.len() && k < c.len() && (b[k] as u32) < (c[k] as u32) && forall|j: int|
                    0 <= j < k ==> #[trigger] b[j] == c[j];
            if k2 < a.len() {
                assert(a[k2] == b[k2]);
                assert forall|j: int| 0 <= j < k2 implies #[trigger] a[j] == c[j] by {
                    assert(a[j] == b[j]);
                    assert(b[j] == c[j]);
                }
                assert((a[k2] as u32) < (c[k2] as u32));
            } else {
                assert forall|j: int| 0 <= j < a.len() implies #[trigger] a[j] == c[j] by {
                    assert(a[j] == b[j]);
                    assert(b[j] == c[j]);
                }
            }
        } else {
            assert forall|j: int| 0 <= j < a.len() implies #[trigger] a[j] == c[j] by {
                assert(a[j] == b[j]);
                assert(b[j] == c[j]);
            }
        }
    }
}

/// A text that comes before another differs from it.
pub proof fn lemma_text_before_differs(a: Seq<char>, b: Seq<char>)
    requires
        text_before(a, b),
    ensures
        a != b,
{
    if exists|k: int|
        0 <= k < a.len() && k < b.len() && (a[k] as u32) < (b[k] as u32) && forall|j: int|
            0 <= j < k ==> #[trigger] a[j] == b[j] {
        let k = choose|k: int|
            0 <= k < a.len() && k < b.len() && (a[k] as u32) < (b[k] as u32) && forall|j: int|
                0 <= j < k ==> #[trigger] a[j] == b[j];
        assert(a[k] != b[k]);
    }
}

/// When `a` and `b` agree up to `i`, where `a` has the smaller character,
/// `a` comes before `b`, not the other way round, and they differ.
proof fn lemma_text_first_difference(a: Seq<char>, b: Seq<char>, i: int)
    requires
        0 <= i < a.len(),
        i < b.len(),
        (a[i] as u32) < (b[i] as u32),
        forall|j: int| 0 <= j < i ==> #[trigger] a[j] == b[j],
    ensures
        text_before(a, b),
        !text_before(b, a),
        a != b,
{
    if exists|k: int|
        0 <= k < b.len() && k < a.len() && (b[k] as u32) < (a[k] as u32) && forall|j: int|
            0 <= j < k ==> #[trigger] b[j] == a[j] {
        let k = choose|k: int|
            0 <= k < b.len() && k < a.len() && (b[k] as u32) < (a[k] as u32) && forall|j: int|
                0 <= j < k ==> #[trigger] b[j] == a[j];
        if k < i {
            assert(a[k] == b[k]);
        } else if k > i {
            assert(b[i] == a[i]);
        }
    }
    if b.len() < a.len() && forall|j: int| 0 <= j < b.len() ==> #[trigger] b[j] == a[j] {
        assert(b[i] == a[i]);
    }
    assert(a[i] != b[i]);
}

/// A proper prefix comes before the text, not the other way round, and
/// differs from it.
proof fn lemma_text_proper_prefix(a: Seq<char>, b: Seq<char>)
    requires
        a.len() < b.len(),
        forall|j: int| 0 <= j < a.len() ==> #[trigger] a[j] == b[j],
    ensures
        text_before(a, b),
        !text_before(b, a),
        a != b,
{
    if exists|k: int|
        0 <= k < b.len() && k < a.len() && (b[k] as u32) < (a[k] as u32) && forall|j: int|
            0 <= j < k ==> #[trigger] b[j] == a[j] {
        let k = choose|k: int|
            0 <= k < b.len() && k < a.len() && (b[k] as u32) < (a[k] as u32) && forall|j: int|
                0 <= j < k ==> #[trigger] b[j] == a[j];
        assert(a[k] == b[k]);
    }
    assert(a.len() != b.len());
}

/// Where the keyword `a` stands relative to `b` in the order of strings.
pub fn keyword_order(a: &Keyword, b: &Keyword) -> (r: Order)
    ensures
        r == Order::Before <==> text_before(a@, b@),
        r == Order::Same <==> a@ == b@,
        r == Order::After <==> text_before(b@, a@),
{
    let sa = a.as_str();
    let sb = b.as_str();
    let la = sa.unicode_len();
    let lb = sb.unicode_len();
    let mut i: usize = 0;
    while i < la && i < lb
        invariant
            i <= la,
            i <= lb,
            la == a@.len(),
            lb == b@.len(),
            sa@ == a@,
            sb@ == b@,
            forall|j: int| 0 <= j < i ==> #[trigger] a@[j] == b@[j],
        decreases la - i,
    {
        let ca = sa.get_char(i);
        let cb = sb.get_char(i);
        if ca != cb {
            if (ca as u32) < (cb as u32) {
                proof {
                    lemma_text_first_difference(a@, b@, i as int);
                }
                return Order::Before;
            } else {
                proof {
                    assert((cb as u32) < (ca as u32));
                    assert forall|j: int| 0 <= j < i implies #[trigger] b@[j] == a@[j] by {
                        assert(a@[j] == b@[j]);
                    }
                    lemma_text_first_difference(b@, a@, i as int);
                }
                return Order::After;
            }
        }
        i = i + 1;
    }
    if la < lb {
        proof {
            lemma_text_proper_prefix(a@, b@);
        }
        Order::Before
    } else if lb < la {
        proof {
            assert forall|j: int| 0 <= j < lb implies #[trigger] b@[j] == a@[j] by {
                assert(a@[j] == b@[j]);
            }
            lemma_text_proper_prefix(b@, a@);
        }
        Order::After
    } else {
        proof {
            assert(a@ =~= b@);
        }
        Order::Same
    }
}

/// An address: a keyword bound to an actor, or an address on the chain.
#[derive(Debug, PartialEq, Eq, PartialOrd, Ord)]
pub enum Address {
    Bind(Keyword),
    ChainAddress(ChainAddress),
}

/// An address on the chain: a numeric id or a 32-byte account.
#[derive(Debug, Clone, Copy, PartialEq, Eq, PartialOrd, Ord)]
pub enum ChainAddress {
    Id(u64),
    Account([u8; 32]),
}

impl Address {
    /// A copy of the address.
    pub fn duplicate(&self) -> (r: Address)
        ensures
            r == *self,
    {
        match self {
            Address::Bind(k) => Address::Bind(k.clone()),
            Address::ChainAddress(a) => Address::ChainAddress(*a),
        }
    }
}

/// The bytes of the program identifier that a chain address stands for.
pub open spec fn chain_address_id(a: ChainAddress) -> Seq<u8> {
    match a {
        ChainAddress::Id(n) => id_bytes_of_u64(n),
        ChainAddress::Account(bytes) => bytes@,
    }
}

/// The weight of the `i`-th byte of a little-endian number: `256` to the
/// power `i`.
pub open spec fn byte_weight(i: int) -> int
    decreases i,
{
    if i <= 0 {
        1
    } else {
        256 * byte_weight(i - 1)
    }
}

/// The identifier of an account address is the account's 32 bytes, in
/// order; that of a numeric id is the number's 8 bytes, lowest first, then
/// 24 zeros.
pub proof fn lemma_chain_address_id(a: ChainAddress)
    ensures
        chain_address_id(a).len() == 32,
        a matches ChainAddress::Account(b) ==> forall|i: int|
            0 <= i < 32 ==> #[trigger] chain_address_id(a)[i] == b[i],
        a matches ChainAddress::Id(n) ==> {
            &&& forall|i: int| 0 <= i < 8 ==> #[trigger] chain_address_id(a)[i] == (n as int / byte_weight(i)) % 256
            &&& forall|i: int| 8 <= i < 32 ==> #[trigger] chain_address_id(a)[i] == 0
        },
{
    if let ChainAddress::Id(n) = a {
        assert(byte_weight(0) == 1);
        assert(byte_weight(1) == 0x100);
        assert(byte_weight(2) == 0x10000);
        assert(byte_weight(3) == 0x1000000);
        assert(byte_weight(4) == 0x100000000);
        assert(byte_weight(5) == 0x10000000000);
        assert(byte_weight(6) == 0x1000000000000);
        assert(byte_weight(7) == 0x100000000000000);
        assert(((n >> 0u64) & 0xffu64) as u8 == n % 0x100) by (bit_vector);
        assert(((n >> 8u64) & 0xffu64) as u8 == (n / 0x100) % 0x100) by (bit_vector);
        assert(((n >> 16u64) & 0xffu64) as u8 == (n / 0x10000) % 0x100) by (bit_vector);
        assert(((n >> 24u64) & 0xffu64) as u8 == (n / 0x1000000) % 0x100) by (bit_vector);
        assert(((n >> 32u64) & 0xffu64) as u8 == (n / 0x100000000) % 0x100) by (bit_vector);
        assert(((n >> 40u64) & 0xffu64) as u8 == (n / 0x10000000000) % 0x100) by (bit_vector);
        assert(((n >> 48u64) & 0xffu64) as u8 == (n / 0x1000000000000) % 0x100) by (bit_vector);
        assert(((n >> 56u64) & 0xffu64) as u8 == (n / 0x100000000000000) % 0x100) by (bit_vector);
    }
}

/// Different numeric ids give different identifiers.
pub proof fn lemma_chain_address_id_injective(m: u64, n: u64)
    requires
        chain_address_id(ChainAddress::Id(m)) == chain_address_id(ChainAddress::Id(n)),
    ensures
        m == n,
{
    crate::ids::lemma_id_bytes_of_u64_injective(m, n);
}

impl From<ChainAddress> for ProgramId {
    fn from(other: ChainAddress) -> (r: ProgramId)
        ensures
            r@ == chain_address_id(other),
    {
        let r = match other {
            ChainAddress::Id(id) => program_id_from_u64(id),
            ChainAddress::Account(h256) => program_id_from_bytes(h256),
        };
        proof {
            let p = choose|p: ProgramId| p@ == chain_address_id(other);
            lemma_same_bytes_same_id(p, r);
        }
        r
    }
}

impl vstd::std_specs::convert::FromSpecImpl<ChainAddress> for ProgramId {
    open spec fn obeys_from_spec() -> bool {
        true
    }

    open spec fn from_spec(v: ChainAddress) -> ProgramId {
        choose|p: ProgramId| p@ == chain_address_id(v)
    }
}

} // verus!
